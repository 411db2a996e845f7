//! The aggregate manager: domain operations composed from the repositories.
use vstd::prelude::*;
use crate::rows::{
    CommentView, DBComment, DBSleep, DBSleepTags, DBTag, SleepView, TagView, comment_views,
    sleep_views, tag_views,
};
use crate::store::{SCHEMA_VERSION, Store, StoreModel, select_comments, select_links, sleeps_in_month};

verus! {

broadcast use vstd::seq_lib::group_seq_properties;

/// A sleep, with its tags where they were asked for.
pub struct DbmSleep {
    /// The sleep row.
    pub sleep: DBSleep,
    /// The sleep's tags; `None` where they were not asked for, which is not the
    /// same as a sleep without tags.
    pub tags: Option<Vec<DBTag>>,
}

/// What a [`DbmSleep`] holds.
pub struct DbmSleepView {
    pub sleep: SleepView,
    pub tags: Option<Seq<TagView>>,
}

impl View for DbmSleep {
    type V = DbmSleepView;

    open spec fn view(&self) -> DbmSleepView {
        DbmSleepView {
            sleep: self.sleep@,
            tags: match self.tags {
                Some(v) => Some(tag_views(v@)),
                None => None,
            },
        }
    }
}

pub open spec fn dbm_views(s: Seq<DbmSleep>) -> Seq<DbmSleepView> {
    Seq::new(s.len(), |i: int| s[i]@)
}

/// Sleeps without their tags.
pub open spec fn without_tags(s: Seq<SleepView>) -> Seq<DbmSleepView> {
    Seq::new(s.len(), |i: int| DbmSleepView { sleep: s[i], tags: None })
}

/// The tag ids of junction rows, in order.
pub open spec fn link_tag_ids(s: Seq<DBSleepTags>) -> Seq<i64> {
    Seq::new(s.len(), |i: int| s[i].tag_id)
}

/// The sleep ids of junction rows, in order.
pub open spec fn link_sleep_ids(s: Seq<DBSleepTags>) -> Seq<i64> {
    Seq::new(s.len(), |i: int| s[i].sleep_id)
}

/// The tags, in order, whose id is among `ids`.
pub open spec fn tags_with_ids(s: Seq<TagView>, ids: Seq<i64>) -> Seq<TagView>
    decreases s.len(),
{
    if s.len() == 0 {
        s
    } else {
        let rest = tags_with_ids(s.drop_last(), ids);
        if ids.contains(s.last().id) {
            rest.push(s.last())
        } else {
            rest
        }
    }
}

/// The sleeps, in order, whose id is among `ids`.
pub open spec fn sleeps_with_ids(s: Seq<SleepView>, ids: Seq<i64>) -> Seq<SleepView>
    decreases s.len(),
{
    if s.len() == 0 {
        s
    } else {
        let rest = sleeps_with_ids(s.drop_last(), ids);
        if ids.contains(s.last().id) {
            rest.push(s.last())
        } else {
            rest
        }
    }
}

/// The tags associated with a sleep, ordered by tag id.
pub open spec fn tags_of_sleep(m: StoreModel, sleep_id: i64) -> Seq<TagView> {
    tags_with_ids(m.tags, link_tag_ids(select_links(m.sleep_tags, Some(sleep_id), None, true)))
}

/// The sleeps associated with a tag, ordered by sleep id.
pub open spec fn sleeps_of_tag(m: StoreModel, tag_id: i64) -> Seq<SleepView> {
    sleeps_with_ids(m.sleeps, link_sleep_ids(select_links(m.sleep_tags, None, Some(tag_id), true)))
}

/// The sleep with the id, with its tags where `include_tags` holds.
pub open spec fn sleep_aggregate(m: StoreModel, id: i64, include_tags: bool) -> Option<DbmSleepView> {
    match m.find_sleep(id) {
        Some(s) => Some(
            DbmSleepView {
                sleep: s,
                tags: if include_tags {
                    Some(tags_of_sleep(m, id))
                } else {
                    None
                },
            },
        ),
        None => None,
    }
}

/// Associates each tag in turn with the sleep, stopping at the first that
/// fails: the store after it, and whether all succeeded.
pub open spec fn attach_tags(m: StoreModel, sleep_id: i64, tag_ids: Seq<i64>) -> (StoreModel, bool)
    decreases tag_ids.len(),
{
    if tag_ids.len() == 0 {
        (m, true)
    } else {
        let (m1, r) = m.insert_sleep_tag(sleep_id, tag_ids[0]);
        if r is Err {
            (m1, false)
        } else {
            attach_tags(m1, sleep_id, tag_ids.subrange(1, tag_ids.len() as int))
        }
    }
}

/// The id an insert reports: the new id, or -1 where the insert failed.
pub open spec fn id_or_sentinel(r: Result<i64, crate::store::StoreError>) -> i64 {
    match r {
        Ok(id) => id,
        Err(_) => -1i64,
    }
}

/// Whether `x` is among `ids`.
fn contains_id(ids: &Vec<i64>, x: i64) -> (r: bool)
    ensures
        r == ids@.contains(x),
{
    let mut i: usize = 0;
    while i < ids.len()
        invariant
            i <= ids@.len(),
            forall|k: int| 0 <= k < i ==> ids@[k] != x,
        decreases ids@.len() - i,
    {
        if ids[i] == x {
            assert(ids@[i as int] == x);
            return true;
        }
        i = i + 1;
    }
    false
}

/// The tag ids of junction rows.
fn tag_ids_of(links: &Vec<DBSleepTags>) -> (r: Vec<i64>)
    ensures
        r@ == link_tag_ids(links@),
{
    let mut r: Vec<i64> = Vec::new();
    let mut i: usize = 0;
    while i < links.len()
        invariant
            i <= links@.len(),
            r@ =~= link_tag_ids(links@).take(i as int),
        decreases links@.len() - i,
    {
        r.push(links[i].tag_id);
        i = i + 1;
    }
    assert(link_tag_ids(links@).take(i as int) =~= link_tag_ids(links@));
    r
}

/// The sleep ids of junction rows.
fn sleep_ids_of(links: &Vec<DBSleepTags>) -> (r: Vec<i64>)
    ensures
        r@ == link_sleep_ids(links@),
{
    let mut r: Vec<i64> = Vec::new();
    let mut i: usize = 0;
    while i < links.len()
        invariant
            i <= links@.len(),
            r@ =~= link_sleep_ids(links@).take(i as int),
        decreases links@.len() - i,
    {
        r.push(links[i].sleep_id);
        i = i + 1;
    }
    assert(link_sleep_ids(links@).take(i as int) =~= link_sleep_ids(links@));
    r
}

/// Wraps each sleep without its tags.
fn wrap_without_tags(sleeps: Vec<DBSleep>) -> (r: Vec<DbmSleep>)
    ensures
        dbm_views(r@) == without_tags(sleep_views(sleeps@)),
{
    let mut r: Vec<DbmSleep> = Vec::new();
    let mut i: usize = 0;
    while i < sleeps.len()
        invariant
            i <= sleeps@.len(),
            dbm_views(r@) =~= without_tags(sleep_views(sleeps@)).take(i as int),
        decreases sleeps@.len() - i,
    {
        let ghost before = r@;
        r.push(DbmSleep { sleep: sleeps[i].duplicate(), tags: None });
        assert(dbm_views(r@) =~= dbm_views(before).push(
            DbmSleepView { sleep: sleeps@[i as int]@, tags: None },
        ));
        i = i + 1;
    }
    assert(without_tags(sleep_views(sleeps@)).take(i as int) =~= without_tags(sleep_views(sleeps@)));
    r
}

/// The sleeps whose id is among `ids`, in their order.
fn keep_sleeps_with_ids(sleeps: &Vec<DBSleep>, ids: &Vec<i64>) -> (r: Vec<DBSleep>)
    ensures
        sleep_views(r@) == sleeps_with_ids(sleep_views(sleeps@), ids@),
{
    let mut r: Vec<DBSleep> = Vec::new();
    let mut i: usize = 0;
    assert(sleep_views(sleeps@).take(0) =~= Seq::<SleepView>::empty());
    assert(sleep_views(r@) =~= Seq::<SleepView>::empty());
    while i < sleeps.len()
        invariant
            i <= sleeps@.len(),
            sleep_views(r@) == sleeps_with_ids(sleep_views(sleeps@).take(i as int), ids@),
        decreases sleeps@.len() - i,
    {
        assert(sleep_views(sleeps@).take(i + 1).drop_last() =~= sleep_views(sleeps@).take(i as int));
        if contains_id(ids, sleeps[i].id) {
            let ghost before = r@;
            r.push(sleeps[i].duplicate());
            assert(sleep_views(r@) =~= sleep_views(before).push(sleeps@[i as int]@));
        }
        i = i + 1;
    }
    assert(sleep_views(sleeps@).take(i as int) =~= sleep_views(sleeps@));
    r
}

/// The tags whose id is among `ids`, in their order.
fn keep_tags_with_ids(tags: &Vec<DBTag>, ids: &Vec<i64>) -> (r: Vec<DBTag>)
    ensures
        tag_views(r@) == tags_with_ids(tag_views(tags@), ids@),
{
    let mut r: Vec<DBTag> = Vec::new();
    let mut i: usize = 0;
    assert(tag_views(tags@).take(0) =~= Seq::<TagView>::empty());
    assert(tag_views(r@) =~= Seq::<TagView>::empty());
    while i < tags.len()
        invariant
            i <= tags@.len(),
            tag_views(r@) == tags_with_ids(tag_views(tags@).take(i as int), ids@),
        decreases tags@.len() - i,
    {
        assert(tag_views(tags@).take(i + 1).drop_last() =~= tag_views(tags@).take(i as int));
        if contains_id(ids, tags[i].id) {
            let ghost before = r@;
            r.push(tags[i].duplicate());
            assert(tag_views(r@) =~= tag_views(before).push(tags@[i as int]@));
        }
        i = i + 1;
    }
    assert(tag_views(tags@).take(i as int) =~= tag_views(tags@));
    r
}


/// Owns the store and offers the domain operations on it. Reads that fail
/// give `None`, updates and deletes that fail give `false`, and inserts that
/// fail give the id -1, which no row ever has.
pub struct DBManager {
    store: Store,
}

impl View for DBManager {
    type V = StoreModel;

    closed spec fn view(&self) -> StoreModel {
        self.store@
    }
}

impl DBManager {
    /// The contents satisfy the schema's invariants.
    pub open spec fn wf(&self) -> bool {
        self@.wf()
    }

    /// A manager over a freshly initialised, empty store.
    pub fn init() -> (r: DBManager)
        ensures
            r@ == StoreModel::empty(),
            r.wf(),
            r@.schema_version == SCHEMA_VERSION,
    {
        DBManager { store: Store::initialize() }
    }

    /// The version of the schema the store was created with.
    pub fn schema_version(&self) -> (r: u32)
        ensures
            r == self@.schema_version,
    {
        self.store.schema_version()
    }

    /// Adds a sleep; returns its id, or -1 where the insert failed.
    pub fn insert_sleep(&mut self, night: &str, amount: u64, quality: i64) -> (r: i64)
        requires
            old(self).wf(),
        ensures
            final(self).wf(),
            final(self)@ == old(self)@.insert_sleep(night@, amount, quality).0,
            r == id_or_sentinel(old(self)@.insert_sleep(night@, amount, quality).1),
    {
        match DBSleep::insert(&mut self.store, night, amount, quality) {
            Ok(id) => id,
            Err(_) => -1,
        }
    }

    /// The sleep with the id, with its tags where `include_tags` holds; `None`
    /// where there is no such sleep.
    pub fn get_sleep(&self, id: i64, include_tags: bool) -> (r: Option<DbmSleep>)
        requires
            self.wf(),
        ensures
            match r {
                Some(d) => sleep_aggregate(self@, id, include_tags) == Some(d@),
                None => sleep_aggregate(self@, id, include_tags) is None,
            },
    {
        let db_sleep = match DBSleep::select_one(&self.store, id) {
            Ok(s) => s,
            Err(_) => return None,
        };
        let mut sleep = DbmSleep { sleep: db_sleep, tags: None };
        if include_tags {
            let tags = self.get_tags_by_sleep(id);
            match tags {
                Some(t) => {
                    sleep.tags = Some(t);
                },
                None => return None,
            }
        }
        Some(sleep)
    }

    /// All sleeps, ordered by id, without their tags.
    pub fn get_all_sleeps(&self) -> (r: Option<Vec<DbmSleep>>)
        requires
            self.wf(),
        ensures
            r is Some,
            dbm_views(r->Some_0@) == without_tags(self@.sleeps),
    {
        match DBSleep::select_all(&self.store) {
            Ok(s) => Some(wrap_without_tags(s)),
            Err(_) => None,
        }
    }

    /// Every sleep whose id is among `ids`, ordered by id, without their tags.
    pub fn get_multiple_sleeps(&self, ids: Vec<i64>) -> (r: Option<Vec<DbmSleep>>)
        requires
            self.wf(),
        ensures
            r is Some,
            dbm_views(r->Some_0@) == without_tags(sleeps_with_ids(self@.sleeps, ids@)),
    {
        match DBSleep::select_all(&self.store) {
            Ok(sleeps) => Some(wrap_without_tags(keep_sleeps_with_ids(&sleeps, &ids))),
            Err(_) => None,
        }
    }

    /// The sleeps associated with the tag, ordered by id, without their tags;
    /// empty for a tag without sleeps.
    pub fn get_sleeps_by_tag(&self, tag_id: i64) -> (r: Option<Vec<DbmSleep>>)
        requires
            self.wf(),
        ensures
            r is Some,
            dbm_views(r->Some_0@) == without_tags(sleeps_of_tag(self@, tag_id)),
    {
        let sleep_ids = match DBSleepTags::select_by_tag_id(&self.store, tag_id) {
            Ok(st) => sleep_ids_of(&st),
            Err(_) => return None,
        };
        self.get_multiple_sleeps(sleep_ids)
    }

    /// The sleeps of a month, ordered by id, without their tags.
    pub fn get_sleeps_by_month(&self, month: u8, year: u16) -> (r: Option<Vec<DbmSleep>>)
        requires
            self.wf(),
        ensures
            r is Some,
            dbm_views(r->Some_0@) == without_tags(sleeps_in_month(self@.sleeps, month, year)),
    {
        match DBSleep::select_by_month(&self.store, month, year) {
            Ok(s) => Some(wrap_without_tags(s)),
            Err(_) => None,
        }
    }

    /// Sets the amount of a sleep; whether there was one.
    pub fn update_sleep_amount(&mut self, id: i64, amount: u64) -> (r: bool)
        requires
            old(self).wf(),
        ensures
            final(self).wf(),
            (final(self)@, r) == old(self)@.update_sleep_amount(id, amount),
    {
        match DBSleep::update_amount(&mut self.store, id, amount) {
            Ok(b) => b,
            Err(_) => false,
        }
    }

    /// Sets the quality of a sleep; whether there was one.
    pub fn update_sleep_quality(&mut self, id: i64, quality: i64) -> (r: bool)
        requires
            old(self).wf(),
        ensures
            final(self).wf(),
            (final(self)@, r) == old(self)@.update_sleep_quality(id, quality),
    {
        match DBSleep::update_quality(&mut self.store, id, quality) {
            Ok(b) => b,
            Err(_) => false,
        }
    }

    /// Deletes a sleep with its tag associations and comments; whether there
    /// was one.
    pub fn delete_sleep(&mut self, id: i64) -> (r: bool)
        requires
            old(self).wf(),
        ensures
            final(self).wf(),
            (final(self)@, r) == old(self)@.delete_sleep(id),
    {
        match DBSleep::delete(&mut self.store, id) {
            Ok(b) => b,
            Err(_) => false,
        }
    }

    /// Adds a tag; returns its id, or -1 where the insert failed.
    pub fn insert_tag(&mut self, name: &str, color: i64) -> (r: i64)
        requires
            old(self).wf(),
        ensures
            final(self).wf(),
            final(self)@ == old(self)@.insert_tag(name@, color).0,
            r == id_or_sentinel(old(self)@.insert_tag(name@, color).1),
    {
        match DBTag::insert(&mut self.store, name, color) {
            Ok(id) => id,
            Err(_) => -1,
        }
    }

    /// The tag with the id; `None` where there is none.
    pub fn get_tag(&self, id: i64) -> (r: Option<DBTag>)
        requires
            self.wf(),
        ensures
            match r {
                Some(t) => self@.find_tag(id) == Some(t@),
                None => self@.find_tag(id) is None,
            },
    {
        match DBTag::select_one(&self.store, id) {
            Ok(t) => Some(t),
            Err(_) => None,
        }
    }

    /// All tags, ordered by id.
    pub fn get_all_tags(&self) -> (r: Option<Vec<DBTag>>)
        requires
            self.wf(),
        ensures
            r is Some,
            tag_views(r->Some_0@) == self@.tags,
    {
        match DBTag::select_all(&self.store) {
            Ok(t) => Some(t),
            Err(_) => None,
        }
    }

    /// The tags associated with the sleep, ordered by id.
    pub fn get_tags_by_sleep(&self, sleep_id: i64) -> (r: Option<Vec<DBTag>>)
        requires
            self.wf(),
        ensures
            r is Some,
            tag_views(r->Some_0@) == tags_of_sleep(self@, sleep_id),
    {
        let tag_ids = match DBSleepTags::select_by_sleep_id(&self.store, sleep_id) {
            Ok(st) => tag_ids_of(&st),
            Err(_) => return None,
        };
        self.get_multiple_tags(tag_ids)
    }

    /// Every tag whose id is among `ids`, ordered by id.
    pub fn get_multiple_tags(&self, ids: Vec<i64>) -> (r: Option<Vec<DBTag>>)
        requires
            self.wf(),
        ensures
            r is Some,
            tag_views(r->Some_0@) == tags_with_ids(self@.tags, ids@),
    {
        match DBTag::select_all(&self.store) {
            Ok(tags) => Some(keep_tags_with_ids(&tags, &ids)),
            Err(_) => None,
        }
    }

    /// Sets the name of a tag; whether there was one.
    pub fn update_tag_name(&mut self, id: i64, name: &str) -> (r: bool)
        requires
            old(self).wf(),
        ensures
            final(self).wf(),
            (final(self)@, r) == old(self)@.update_tag_name(id, name@),
    {
        match DBTag::update_name(&mut self.store, id, name) {
            Ok(b) => b,
            Err(_) => false,
        }
    }

    /// Sets the color of a tag; whether there was one.
    pub fn update_tag_color(&mut self, id: i64, color: i64) -> (r: bool)
        requires
            old(self).wf(),
        ensures
            final(self).wf(),
            (final(self)@, r) == old(self)@.update_tag_color(id, color),
    {
        match DBTag::update_color(&mut self.store, id, color) {
            Ok(b) => b,
            Err(_) => false,
        }
    }

    /// Deletes a tag with its sleep associations; whether there was one.
    pub fn delete_tag(&mut self, id: i64) -> (r: bool)
        requires
            old(self).wf(),
        ensures
            final(self).wf(),
            (final(self)@, r) == old(self)@.delete_tag(id),
    {
        match DBTag::delete(&mut self.store, id) {
            Ok(b) => b,
            Err(_) => false,
        }
    }

    /// Associates each tag in turn with the sleep. Stops at the first that
    /// fails and returns `false`, keeping the associations made before it;
    /// `true` where all succeeded.
    pub fn add_tags_to_sleep(&mut self, sleep_id: i64, tag_ids: Vec<i64>) -> (r: bool)
        requires
            old(self).wf(),
        ensures
            final(self).wf(),
            (final(self)@, r) == attach_tags(old(self)@, sleep_id, tag_ids@),
    {
        let mut i: usize = 0;
        assert(tag_ids@.subrange(0, tag_ids@.len() as int) =~= tag_ids@);
        while i < tag_ids.len()
            invariant
                i <= tag_ids@.len(),
                self.wf(),
                attach_tags(old(self)@, sleep_id, tag_ids@) == attach_tags(
                    self.store@,
                    sleep_id,
                    tag_ids@.subrange(i as int, tag_ids@.len() as int),
                ),
            decreases tag_ids@.len() - i,
        {
            let ghost rest = tag_ids@.subrange(i as int, tag_ids@.len() as int);
            assert(rest[0] == tag_ids@[i as int]);
            assert(rest.subrange(1, rest.len() as int) =~= tag_ids@.subrange(
                i + 1,
                tag_ids@.len() as int,
            ));
            match DBSleepTags::insert(&mut self.store, sleep_id, tag_ids[i]) {
                Ok(_) => {},
                Err(_) => {
                    return false;
                },
            }
            i = i + 1;
        }
        true
    }

    /// Deletes every association of the tag with the sleep; whether there was one.
    pub fn remove_tag_from_sleep(&mut self, sleep_id: i64, tag_id: i64) -> (r: bool)
        requires
            old(self).wf(),
        ensures
            final(self).wf(),
            (final(self)@, r) == old(self)@.delete_sleep_tag(sleep_id, tag_id),
    {
        match DBSleepTags::delete(&mut self.store, sleep_id, tag_id) {
            Ok(b) => b,
            Err(_) => false,
        }
    }

    /// Adds a comment on a sleep; returns its id, or -1 where the insert failed.
    pub fn insert_comment(&mut self, sleep_id: i64, comment: &str) -> (r: i64)
        requires
            old(self).wf(),
        ensures
            final(self).wf(),
            final(self)@ == old(self)@.insert_comment(sleep_id, comment@).0,
            r == id_or_sentinel(old(self)@.insert_comment(sleep_id, comment@).1),
    {
        match DBComment::insert(&mut self.store, sleep_id, comment) {
            Ok(id) => id,
            Err(_) => -1,
        }
    }

    /// The comment with the id; `None` where there is none.
    pub fn get_comment(&self, comment_id: i64) -> (r: Option<DBComment>)
        requires
            self.wf(),
        ensures
            match r {
                Some(c) => self@.find_comment(comment_id) == Some(c@),
                None => self@.find_comment(comment_id) is None,
            },
    {
        match DBComment::select_by_id(&self.store, comment_id) {
            Ok(c) => Some(c),
            Err(_) => None,
        }
    }

    /// The comments on a sleep, ordered by id.
    pub fn get_comments_by_sleep(&self, sleep_id: i64) -> (r: Option<Vec<DBComment>>)
        requires
            self.wf(),
        ensures
            r is Some,
            comment_views(r->Some_0@) == select_comments(self@.comments, sleep_id, true),
    {
        match DBComment::select_by_sleep_id(&self.store, sleep_id) {
            Ok(c) => Some(c),
            Err(_) => None,
        }
    }

    /// Sets the text of a comment; whether there was one.
    pub fn update_comment(&mut self, comment_id: i64, comment: &str) -> (r: bool)
        requires
            old(self).wf(),
        ensures
            final(self).wf(),
            (final(self)@, r) == old(self)@.update_comment(comment_id, comment@),
    {
        match DBComment::update_comment(&mut self.store, comment_id, comment) {
            Ok(b) => b,
            Err(_) => false,
        }
    }

    /// Deletes a comment; whether there was one.
    pub fn delete_comment(&mut self, id: i64) -> (r: bool)
        requires
            old(self).wf(),
        ensures
            final(self).wf(),
            (final(self)@, r) == old(self)@.delete_comment(id),
    {
        match DBComment::delete(&mut self.store, id) {
            Ok(b) => b,
            Err(_) => false,
        }
    }
}

} // verus!
