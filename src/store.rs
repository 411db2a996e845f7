//! The store: the four tables, with the schema's rules.
//!
//! Ids are assigned by the store in increasing order and never reused, the
//! junction and comment rows must reference existing rows when written, and
//! deleting a sleep or a tag deletes the rows that reference it.
use vstd::prelude::*;
use crate::rows::{
    CommentView, DBComment, DBSleep, DBSleepTags, DBTag, SleepView, TagView, comment_views,
    sleep_views, tag_views,
};

verus! {

broadcast use vstd::seq_lib::group_seq_properties;

/// The version of the schema that [`Store::initialize`] creates.
pub const SCHEMA_VERSION: u32 = 1;

/// Why a store operation failed.
#[derive(Clone, Copy, Debug, PartialEq, Eq, Structural)]
pub enum StoreError {
    /// A lookup of one row matched none.
    NotFound,
    /// A write referenced a row that does not exist.
    ConstraintViolation,
    /// The table has handed out its largest id.
    Full,
}

/// The contents of the store.
pub struct StoreModel {
    pub sleeps: Seq<SleepView>,
    pub tags: Seq<TagView>,
    pub sleep_tags: Seq<DBSleepTags>,
    pub comments: Seq<CommentView>,
    /// The id the next sleep will get; likewise below.
    pub next_sleep_id: i64,
    pub next_tag_id: i64,
    pub next_sleep_tag_id: i64,
    pub next_comment_id: i64,
    /// The version of the schema the tables were created with.
    pub schema_version: u32,
}

/// Ids that are positive, strictly increasing, and below `next`.
pub open spec fn ids_valid(ids: Seq<i64>, next: i64) -> bool {
    &&& 1 <= next
    &&& forall|i: int, j: int| 0 <= i < j < ids.len() ==> ids[i] < ids[j]
    &&& forall|i: int| 0 <= i < ids.len() ==> 1 <= #[trigger] ids[i] < next
}

pub open spec fn sleep_ids(s: Seq<SleepView>) -> Seq<i64> {
    Seq::new(s.len(), |i: int| s[i].id)
}

pub open spec fn tag_ids(s: Seq<TagView>) -> Seq<i64> {
    Seq::new(s.len(), |i: int| s[i].id)
}

pub open spec fn link_ids(s: Seq<DBSleepTags>) -> Seq<i64> {
    Seq::new(s.len(), |i: int| s[i].id)
}

pub open spec fn comment_ids(s: Seq<CommentView>) -> Seq<i64> {
    Seq::new(s.len(), |i: int| s[i].id)
}

/// Whether a junction row matches the given sleep and tag; `None` matches any.
pub open spec fn link_matches(r: DBSleepTags, sleep_id: Option<i64>, tag_id: Option<i64>) -> bool {
    &&& (match sleep_id {
        Some(s) => r.sleep_id == s,
        None => true,
    })
    &&& (match tag_id {
        Some(t) => r.tag_id == t,
        None => true,
    })
}

/// The junction rows, in order, that match (`keep`) or do not match (`!keep`).
pub open spec fn select_links(
    s: Seq<DBSleepTags>,
    sleep_id: Option<i64>,
    tag_id: Option<i64>,
    keep: bool,
) -> Seq<DBSleepTags>
    decreases s.len(),
{
    if s.len() == 0 {
        s
    } else {
        let rest = select_links(s.drop_last(), sleep_id, tag_id, keep);
        if link_matches(s.last(), sleep_id, tag_id) == keep {
            rest.push(s.last())
        } else {
            rest
        }
    }
}

/// The comments, in order, on the sleep (`keep`) or on other sleeps (`!keep`).
pub open spec fn select_comments(s: Seq<CommentView>, sleep_id: i64, keep: bool) -> Seq<CommentView>
    decreases s.len(),
{
    if s.len() == 0 {
        s
    } else {
        let rest = select_comments(s.drop_last(), sleep_id, keep);
        if (s.last().sleep_id == sleep_id) == keep {
            rest.push(s.last())
        } else {
            rest
        }
    }
}

/// The sleeps, in order, whose night falls in the month.
pub open spec fn sleeps_in_month(s: Seq<SleepView>, month: u8, year: u16) -> Seq<SleepView>
    decreases s.len(),
{
    if s.len() == 0 {
        s
    } else {
        let rest = sleeps_in_month(s.drop_last(), month, year);
        if crate::night::in_month(s.last().night, month, year) {
            rest.push(s.last())
        } else {
            rest
        }
    }
}

impl StoreModel {
    pub open spec fn has_sleep(self, id: i64) -> bool {
        exists|i: int| 0 <= i < self.sleeps.len() && #[trigger] self.sleeps[i].id == id
    }

    pub open spec fn has_tag(self, id: i64) -> bool {
        exists|i: int| 0 <= i < self.tags.len() && #[trigger] self.tags[i].id == id
    }

    pub open spec fn has_comment(self, id: i64) -> bool {
        exists|i: int| 0 <= i < self.comments.len() && #[trigger] self.comments[i].id == id
    }

    /// Where the sleep with the id stands.
    pub open spec fn sleep_pos(self, id: i64) -> int {
        choose|i: int| 0 <= i < self.sleeps.len() && #[trigger] self.sleeps[i].id == id
    }

    pub open spec fn tag_pos(self, id: i64) -> int {
        choose|i: int| 0 <= i < self.tags.len() && #[trigger] self.tags[i].id == id
    }

    pub open spec fn comment_pos(self, id: i64) -> int {
        choose|i: int| 0 <= i < self.comments.len() && #[trigger] self.comments[i].id == id
    }

    /// The schema's invariants: valid ids in each table, and every junction
    /// row and comment referencing rows that exist.
    pub open spec fn wf(self) -> bool {
        &&& ids_valid(sleep_ids(self.sleeps), self.next_sleep_id)
        &&& ids_valid(tag_ids(self.tags), self.next_tag_id)
        &&& ids_valid(link_ids(self.sleep_tags), self.next_sleep_tag_id)
        &&& ids_valid(comment_ids(self.comments), self.next_comment_id)
        &&& self.links_ok()
        &&& self.comments_ok()
    }

    /// Every junction row references a sleep and a tag that exist.
    pub open spec fn links_ok(self) -> bool {
        forall|i: int|
            0 <= i < self.sleep_tags.len() ==> self.has_sleep(#[trigger] self.sleep_tags[i].sleep_id)
                && self.has_tag(self.sleep_tags[i].tag_id)
    }

    /// Every comment references a sleep that exists.
    pub open spec fn comments_ok(self) -> bool {
        forall|i: int|
            0 <= i < self.comments.len() ==> self.has_sleep(#[trigger] self.comments[i].sleep_id)
    }

    /// An empty store.
    pub open spec fn empty() -> StoreModel {
        StoreModel {
            sleeps: Seq::empty(),
            tags: Seq::empty(),
            sleep_tags: Seq::empty(),
            comments: Seq::empty(),
            next_sleep_id: 1,
            next_tag_id: 1,
            next_sleep_tag_id: 1,
            next_comment_id: 1,
            schema_version: SCHEMA_VERSION,
        }
    }

    /// The sleep with the id, if there is one.
    pub open spec fn find_sleep(self, id: i64) -> Option<SleepView> {
        if self.has_sleep(id) {
            Some(self.sleeps[self.sleep_pos(id)])
        } else {
            None
        }
    }

    pub open spec fn find_tag(self, id: i64) -> Option<TagView> {
        if self.has_tag(id) {
            Some(self.tags[self.tag_pos(id)])
        } else {
            None
        }
    }

    pub open spec fn find_comment(self, id: i64) -> Option<CommentView> {
        if self.has_comment(id) {
            Some(self.comments[self.comment_pos(id)])
        } else {
            None
        }
    }

    /// Adds a sleep under the next id, and returns that id.
    pub open spec fn insert_sleep(self, night: Seq<char>, amount: u64, quality: i64) -> (
        StoreModel,
        Result<i64, StoreError>,
    ) {
        if self.next_sleep_id == i64::MAX {
            (self, Err(StoreError::Full))
        } else {
            let row = SleepView { id: self.next_sleep_id, night, amount, quality };
            (
                StoreModel {
                    sleeps: self.sleeps.push(row),
                    next_sleep_id: (self.next_sleep_id + 1) as i64,
                    ..self
                },
                Ok(self.next_sleep_id),
            )
        }
    }

    /// Sets the amount of the sleep with the id; whether there was one.
    pub open spec fn update_sleep_amount(self, id: i64, amount: u64) -> (StoreModel, bool) {
        if self.has_sleep(id) {
            let i = self.sleep_pos(id);
            let row = SleepView { amount, ..self.sleeps[i] };
            (StoreModel { sleeps: self.sleeps.update(i, row), ..self }, true)
        } else {
            (self, false)
        }
    }

    /// Sets the quality of the sleep with the id; whether there was one.
    pub open spec fn update_sleep_quality(self, id: i64, quality: i64) -> (StoreModel, bool) {
        if self.has_sleep(id) {
            let i = self.sleep_pos(id);
            let row = SleepView { quality, ..self.sleeps[i] };
            (StoreModel { sleeps: self.sleeps.update(i, row), ..self }, true)
        } else {
            (self, false)
        }
    }

    /// Deletes the sleep with the id, with its junction rows and comments;
    /// whether there was one.
    pub open spec fn delete_sleep(self, id: i64) -> (StoreModel, bool) {
        if self.has_sleep(id) {
            (
                StoreModel {
                    sleeps: self.sleeps.remove(self.sleep_pos(id)),
                    sleep_tags: select_links(self.sleep_tags, Some(id), None, false),
                    comments: select_comments(self.comments, id, false),
                    ..self
                },
                true,
            )
        } else {
            (self, false)
        }
    }

    /// Adds a tag under the next id, and returns that id.
    pub open spec fn insert_tag(self, name: Seq<char>, color: i64) -> (StoreModel, Result<i64, StoreError>) {
        if self.next_tag_id == i64::MAX {
            (self, Err(StoreError::Full))
        } else {
            let row = TagView { id: self.next_tag_id, name, color };
            (
                StoreModel { tags: self.tags.push(row), next_tag_id: (self.next_tag_id + 1) as i64, ..self },
                Ok(self.next_tag_id),
            )
        }
    }

    /// Sets the name of the tag with the id; whether there was one.
    pub open spec fn update_tag_name(self, id: i64, name: Seq<char>) -> (StoreModel, bool) {
        if self.has_tag(id) {
            let i = self.tag_pos(id);
            let row = TagView { name, ..self.tags[i] };
            (StoreModel { tags: self.tags.update(i, row), ..self }, true)
        } else {
            (self, false)
        }
    }

    /// Sets the color of the tag with the id; whether there was one.
    pub open spec fn update_tag_color(self, id: i64, color: i64) -> (StoreModel, bool) {
        if self.has_tag(id) {
            let i = self.tag_pos(id);
            let row = TagView { color, ..self.tags[i] };
            (StoreModel { tags: self.tags.update(i, row), ..self }, true)
        } else {
            (self, false)
        }
    }

    /// Deletes the tag with the id, with its junction rows; whether there was one.
    pub open spec fn delete_tag(self, id: i64) -> (StoreModel, bool) {
        if self.has_tag(id) {
            (
                StoreModel {
                    tags: self.tags.remove(self.tag_pos(id)),
                    sleep_tags: select_links(self.sleep_tags, None, Some(id), false),
                    ..self
                },
                true,
            )
        } else {
            (self, false)
        }
    }

    /// Associates a tag with a sleep, both of which must exist, under the next
    /// id of the junction table, and returns that id. The same pair may be
    /// associated more than once.
    pub open spec fn insert_sleep_tag(self, sleep_id: i64, tag_id: i64) -> (
        StoreModel,
        Result<i64, StoreError>,
    ) {
        if !self.has_sleep(sleep_id) || !self.has_tag(tag_id) {
            (self, Err(StoreError::ConstraintViolation))
        } else if self.next_sleep_tag_id == i64::MAX {
            (self, Err(StoreError::Full))
        } else {
            let row = DBSleepTags { id: self.next_sleep_tag_id, sleep_id, tag_id };
            (
                StoreModel {
                    sleep_tags: self.sleep_tags.push(row),
                    next_sleep_tag_id: (self.next_sleep_tag_id + 1) as i64,
                    ..self
                },
                Ok(self.next_sleep_tag_id),
            )
        }
    }

    /// Deletes every association of the tag with the sleep; whether there was one.
    pub open spec fn delete_sleep_tag(self, sleep_id: i64, tag_id: i64) -> (StoreModel, bool) {
        (
            StoreModel {
                sleep_tags: select_links(self.sleep_tags, Some(sleep_id), Some(tag_id), false),
                ..self
            },
            select_links(self.sleep_tags, Some(sleep_id), Some(tag_id), true).len() > 0,
        )
    }

    /// Adds a comment on a sleep, which must exist, under the next id, and
    /// returns that id.
    pub open spec fn insert_comment(self, sleep_id: i64, comment: Seq<char>) -> (
        StoreModel,
        Result<i64, StoreError>,
    ) {
        if !self.has_sleep(sleep_id) {
            (self, Err(StoreError::ConstraintViolation))
        } else if self.next_comment_id == i64::MAX {
            (self, Err(StoreError::Full))
        } else {
            let row = CommentView { id: self.next_comment_id, sleep_id, comment };
            (
                StoreModel {
                    comments: self.comments.push(row),
                    next_comment_id: (self.next_comment_id + 1) as i64,
                    ..self
                },
                Ok(self.next_comment_id),
            )
        }
    }

    /// Sets the text of the comment with the id; whether there was one.
    pub open spec fn update_comment(self, id: i64, comment: Seq<char>) -> (StoreModel, bool) {
        if self.has_comment(id) {
            let i = self.comment_pos(id);
            let row = CommentView { comment, ..self.comments[i] };
            (StoreModel { comments: self.comments.update(i, row), ..self }, true)
        } else {
            (self, false)
        }
    }

    /// Deletes the comment with the id; whether there was one.
    pub open spec fn delete_comment(self, id: i64) -> (StoreModel, bool) {
        if self.has_comment(id) {
            (StoreModel { comments: self.comments.remove(self.comment_pos(id)), ..self }, true)
        } else {
            (self, false)
        }
    }
}


/// A row id that is present exactly once, at `pos`.
pub proof fn lemma_unique_pos(ids: Seq<i64>, next: i64, pos: int, other: int)
    requires
        ids_valid(ids, next),
        0 <= pos < ids.len(),
        0 <= other < ids.len(),
        ids[pos] == ids[other],
    ensures
        pos == other,
{
    if pos < other {
        assert(ids[pos] < ids[other]);
    } else if other < pos {
        assert(ids[other] < ids[pos]);
    }
}

/// Removing an entry keeps ids valid.
pub proof fn lemma_remove_ids_valid(ids: Seq<i64>, next: i64, pos: int)
    requires
        ids_valid(ids, next),
        0 <= pos < ids.len(),
    ensures
        ids_valid(ids.remove(pos), next),
{
    let r = ids.remove(pos);
    assert forall|i: int, j: int| 0 <= i < j < r.len() implies r[i] < r[j] by {
        let oi = if i < pos { i } else { i + 1 };
        let oj = if j < pos { j } else { j + 1 };
        assert(r[i] == ids[oi] && r[j] == ids[oj]);
    }
    assert forall|i: int| 0 <= i < r.len() implies 1 <= #[trigger] r[i] < next by {
        let oi = if i < pos { i } else { i + 1 };
        assert(r[i] == ids[oi]);
    }
}

/// Adding an id above all others keeps ids valid.
pub proof fn lemma_push_ids_valid(ids: Seq<i64>, next: i64)
    requires
        ids_valid(ids, next),
        next < i64::MAX,
    ensures
        ids_valid(ids.push(next), (next + 1) as i64),
{
    let r = ids.push(next);
    assert forall|i: int, j: int| 0 <= i < j < r.len() implies r[i] < r[j] by {
        if j < ids.len() {
            assert(r[i] == ids[i] && r[j] == ids[j]);
        } else {
            assert(r[i] == ids[i]);
        }
    }
}

/// The rows kept by a filter of the junction table.
pub proof fn lemma_select_links(
    s: Seq<DBSleepTags>,
    sleep_id: Option<i64>,
    tag_id: Option<i64>,
    keep: bool,
    next: i64,
)
    ensures
        forall|x: DBSleepTags| #[trigger]
            select_links(s, sleep_id, tag_id, keep).contains(x) <==> (s.contains(x) && link_matches(
                x,
                sleep_id,
                tag_id,
            ) == keep),
        ids_valid(link_ids(s), next) ==> ids_valid(
            link_ids(select_links(s, sleep_id, tag_id, keep)),
            next,
        ),
    decreases s.len(),
{
    let r = select_links(s, sleep_id, tag_id, keep);
    if s.len() > 0 {
        let d = s.drop_last();
        lemma_select_links(d, sleep_id, tag_id, keep, next);
        let rd = select_links(d, sleep_id, tag_id, keep);
        assert forall|x: DBSleepTags| #[trigger] r.contains(x) <==> (s.contains(x) && link_matches(
            x,
            sleep_id,
            tag_id,
        ) == keep) by {
            if s.contains(x) && link_matches(x, sleep_id, tag_id) == keep {
                let k = choose|k: int| 0 <= k < s.len() && s[k] == x;
                if k < d.len() {
                    assert(d[k] == x);
                    assert(d.contains(x));
                    assert(rd.contains(x));
                    if r != rd {
                        assert(r == rd.push(s.last()));
                        let m = choose|m: int| 0 <= m < rd.len() && rd[m] == x;
                        assert(r[m] == x);
                    }
                } else {
                    assert(r == rd.push(s.last()));
                    assert(r[rd.len() as int] == x);
                }
            }
            if r.contains(x) {
                let m = choose|m: int| 0 <= m < r.len() && r[m] == x;
                if m < rd.len() {
                    assert(rd[m] == x);
                    assert(rd.contains(x));
                    let k = choose|k: int| 0 <= k < d.len() && d[k] == x;
                    assert(s[k] == x);
                } else {
                    assert(s[s.len() - 1] == x);
                }
            }
        }
        if ids_valid(link_ids(s), next) {
            assert(ids_valid(link_ids(d), next)) by {
                assert forall|i: int| 0 <= i < link_ids(d).len() implies link_ids(d)[i] == link_ids(
                    s,
                )[i] by {}
            }
            if r != rd {
                let ir = link_ids(r);
                assert forall|i: int, j: int| 0 <= i < j < ir.len() implies ir[i] < ir[j] by {
                    if j == ir.len() - 1 {
                        assert(rd.contains(rd[i]));
                        let k = choose|k: int| 0 <= k < d.len() && d[k] == rd[i];
                        assert(link_ids(s)[k] < link_ids(s)[s.len() - 1]);
                    } else {
                        assert(link_ids(rd)[i] < link_ids(rd)[j]);
                    }
                }
                assert forall|i: int| 0 <= i < ir.len() implies 1 <= #[trigger] ir[i] < next by {
                    if i < ir.len() - 1 {
                        assert(link_ids(rd)[i] == ir[i]);
                    } else {
                        assert(link_ids(s)[s.len() - 1] == ir[i]);
                    }
                }
            }
        }
    }
}

/// The rows kept by a filter of the comment table.
pub proof fn lemma_select_comments(
    s: Seq<CommentView>,
    sleep_id: i64,
    keep: bool,
    next: i64,
)
    ensures
        forall|x: CommentView| #[trigger]
            select_comments(s, sleep_id, keep).contains(x) <==> (s.contains(x) && (x.sleep_id == sleep_id) == keep),
        ids_valid(comment_ids(s), next) ==> ids_valid(
            comment_ids(select_comments(s, sleep_id, keep)),
            next,
        ),
    decreases s.len(),
{
    let r = select_comments(s, sleep_id, keep);
    if s.len() > 0 {
        let d = s.drop_last();
        lemma_select_comments(d, sleep_id, keep, next);
        let rd = select_comments(d, sleep_id, keep);
        assert forall|x: CommentView| #[trigger] r.contains(x) <==> (s.contains(x) && (x.sleep_id == sleep_id) == keep) by {
            if s.contains(x) && (x.sleep_id == sleep_id) == keep {
                let k = choose|k: int| 0 <= k < s.len() && s[k] == x;
                if k < d.len() {
                    assert(d[k] == x);
                    assert(d.contains(x));
                    assert(rd.contains(x));
                    if r != rd {
                        assert(r == rd.push(s.last()));
                        let m = choose|m: int| 0 <= m < rd.len() && rd[m] == x;
                        assert(r[m] == x);
                    }
                } else {
                    assert(r == rd.push(s.last()));
                    assert(r[rd.len() as int] == x);
                }
            }
            if r.contains(x) {
                let m = choose|m: int| 0 <= m < r.len() && r[m] == x;
                if m < rd.len() {
                    assert(rd[m] == x);
                    assert(rd.contains(x));
                    let k = choose|k: int| 0 <= k < d.len() && d[k] == x;
                    assert(s[k] == x);
                } else {
                    assert(s[s.len() - 1] == x);
                }
            }
        }
        if ids_valid(comment_ids(s), next) {
            assert(ids_valid(comment_ids(d), next)) by {
                assert forall|i: int| 0 <= i < comment_ids(d).len() implies comment_ids(d)[i] == comment_ids(
                    s,
                )[i] by {}
            }
            if r != rd {
                let ir = comment_ids(r);
                assert forall|i: int, j: int| 0 <= i < j < ir.len() implies ir[i] < ir[j] by {
                    if j == ir.len() - 1 {
                        assert(rd.contains(rd[i]));
                        let k = choose|k: int| 0 <= k < d.len() && d[k] == rd[i];
                        assert(comment_ids(s)[k] < comment_ids(s)[s.len() - 1]);
                    } else {
                        assert(comment_ids(rd)[i] < comment_ids(rd)[j]);
                    }
                }
                assert forall|i: int| 0 <= i < ir.len() implies 1 <= #[trigger] ir[i] < next by {
                    if i < ir.len() - 1 {
                        assert(comment_ids(rd)[i] == ir[i]);
                    } else {
                        assert(comment_ids(s)[s.len() - 1] == ir[i]);
                    }
                }
            }
        }
    }
}


/// The four tables, kept in memory.
pub struct Store {
    sleeps: Vec<DBSleep>,
    tags: Vec<DBTag>,
    sleep_tags: Vec<DBSleepTags>,
    comments: Vec<DBComment>,
    next_sleep_id: i64,
    next_tag_id: i64,
    next_sleep_tag_id: i64,
    next_comment_id: i64,
    schema_version: u32,
}

impl View for Store {
    type V = StoreModel;

    closed spec fn view(&self) -> StoreModel {
        StoreModel {
            sleeps: sleep_views(self.sleeps@),
            tags: tag_views(self.tags@),
            sleep_tags: self.sleep_tags@,
            comments: comment_views(self.comments@),
            next_sleep_id: self.next_sleep_id,
            next_tag_id: self.next_tag_id,
            next_sleep_tag_id: self.next_sleep_tag_id,
            next_comment_id: self.next_comment_id,
            schema_version: self.schema_version,
        }
    }
}

impl Store {
    /// Creates the four empty tables: the store as it stands right after the
    /// schema was initialised.
    pub fn initialize() -> (r: Store)
        ensures
            r@ == StoreModel::empty(),
            r@.wf(),
            r@.schema_version == SCHEMA_VERSION,
    {
        let r = Store {
            sleeps: Vec::new(),
            tags: Vec::new(),
            sleep_tags: Vec::new(),
            comments: Vec::new(),
            next_sleep_id: 1,
            next_tag_id: 1,
            next_sleep_tag_id: 1,
            next_comment_id: 1,
            schema_version: SCHEMA_VERSION,
        };
        assert(sleep_views(r.sleeps@) =~= Seq::<SleepView>::empty());
        assert(tag_views(r.tags@) =~= Seq::<TagView>::empty());
        assert(comment_views(r.comments@) =~= Seq::<CommentView>::empty());
        assert(r.sleep_tags@ =~= Seq::<DBSleepTags>::empty());
        r
    }

    /// The version of the schema the tables were created with.
    pub fn schema_version(&self) -> (r: u32)
        ensures
            r == self@.schema_version,
    {
        self.schema_version
    }

    /// Where the sleep with the id stands.
    fn sleep_position(&self, id: i64) -> (r: Option<usize>)
        requires
            self@.wf(),
        ensures
            match r {
                Some(i) => self@.has_sleep(id) && i == self@.sleep_pos(id) && i < self@.sleeps.len(),
                None => !self@.has_sleep(id),
            },
    {
        let mut i: usize = 0;
        while i < self.sleeps.len()
            invariant
                i <= self.sleeps@.len(),
                self@.wf(),
                self@.sleeps.len() == self.sleeps@.len(),
                forall|k: int| 0 <= k < i ==> self@.sleeps[k].id != id,
            decreases self.sleeps@.len() - i,
        {
            if self.sleeps[i].id == id {
                proof {
                    assert(self@.sleeps[i as int].id == id);
                    let p = self@.sleep_pos(id);
                    assert(sleep_ids(self@.sleeps)[p] == sleep_ids(self@.sleeps)[i as int]);
                    lemma_unique_pos(sleep_ids(self@.sleeps), self@.next_sleep_id, p, i as int);
                }
                return Some(i);
            }
            i = i + 1;
        }
        None
    }

    /// Where the tag with the id stands.
    fn tag_position(&self, id: i64) -> (r: Option<usize>)
        requires
            self@.wf(),
        ensures
            match r {
                Some(i) => self@.has_tag(id) && i == self@.tag_pos(id) && i < self@.tags.len(),
                None => !self@.has_tag(id),
            },
    {
        let mut i: usize = 0;
        while i < self.tags.len()
            invariant
                i <= self.tags@.len(),
                self@.wf(),
                self@.tags.len() == self.tags@.len(),
                forall|k: int| 0 <= k < i ==> self@.tags[k].id != id,
            decreases self.tags@.len() - i,
        {
            if self.tags[i].id == id {
                proof {
                    assert(self@.tags[i as int].id == id);
                    let p = self@.tag_pos(id);
                    assert(tag_ids(self@.tags)[p] == tag_ids(self@.tags)[i as int]);
                    lemma_unique_pos(tag_ids(self@.tags), self@.next_tag_id, p, i as int);
                }
                return Some(i);
            }
            i = i + 1;
        }
        None
    }

    /// Where the comment with the id stands.
    fn comment_position(&self, id: i64) -> (r: Option<usize>)
        requires
            self@.wf(),
        ensures
            match r {
                Some(i) => self@.has_comment(id) && i == self@.comment_pos(id) && i < self@.comments.len(),
                None => !self@.has_comment(id),
            },
    {
        let mut i: usize = 0;
        while i < self.comments.len()
            invariant
                i <= self.comments@.len(),
                self@.wf(),
                self@.comments.len() == self.comments@.len(),
                forall|k: int| 0 <= k < i ==> self@.comments[k].id != id,
            decreases self.comments@.len() - i,
        {
            if self.comments[i].id == id {
                proof {
                    assert(self@.comments[i as int].id == id);
                    let p = self@.comment_pos(id);
                    assert(comment_ids(self@.comments)[p] == comment_ids(self@.comments)[i as int]);
                    lemma_unique_pos(comment_ids(self@.comments), self@.next_comment_id, p, i as int);
                }
                return Some(i);
            }
            i = i + 1;
        }
        None
    }
}


/// Two stores whose sleep ids agree hold the same sleeps, by id.
pub proof fn lemma_same_sleep_ids(a: StoreModel, b: StoreModel)
    requires
        sleep_ids(a.sleeps) == sleep_ids(b.sleeps),
    ensures
        forall|id: i64| a.has_sleep(id) == b.has_sleep(id),
{
    assert(a.sleeps.len() == sleep_ids(a.sleeps).len() && b.sleeps.len() == sleep_ids(b.sleeps).len());
    assert forall|id: i64| a.has_sleep(id) == b.has_sleep(id) by {
        if a.has_sleep(id) {
            let j = choose|j: int| 0 <= j < a.sleeps.len() && #[trigger] a.sleeps[j].id == id;
            assert(sleep_ids(a.sleeps)[j] == a.sleeps[j].id);
            assert(sleep_ids(b.sleeps)[j] == b.sleeps[j].id);
            assert(b.sleeps[j].id == id);
        }
        if b.has_sleep(id) {
            let j = choose|j: int| 0 <= j < b.sleeps.len() && #[trigger] b.sleeps[j].id == id;
            assert(sleep_ids(a.sleeps)[j] == a.sleeps[j].id);
            assert(sleep_ids(b.sleeps)[j] == b.sleeps[j].id);
            assert(a.sleeps[j].id == id);
        }
    }
}

/// Two stores whose tag ids agree hold the same tags, by id.
pub proof fn lemma_same_tag_ids(a: StoreModel, b: StoreModel)
    requires
        tag_ids(a.tags) == tag_ids(b.tags),
    ensures
        forall|id: i64| a.has_tag(id) == b.has_tag(id),
{
    assert(a.tags.len() == tag_ids(a.tags).len() && b.tags.len() == tag_ids(b.tags).len());
    assert forall|id: i64| a.has_tag(id) == b.has_tag(id) by {
        if a.has_tag(id) {
            let j = choose|j: int| 0 <= j < a.tags.len() && #[trigger] a.tags[j].id == id;
            assert(tag_ids(a.tags)[j] == a.tags[j].id);
            assert(tag_ids(b.tags)[j] == b.tags[j].id);
            assert(b.tags[j].id == id);
        }
        if b.has_tag(id) {
            let j = choose|j: int| 0 <= j < b.tags.len() && #[trigger] b.tags[j].id == id;
            assert(tag_ids(a.tags)[j] == a.tags[j].id);
            assert(tag_ids(b.tags)[j] == b.tags[j].id);
            assert(a.tags[j].id == id);
        }
    }
}

/// The junction rows that match (`keep`) or do not match (`!keep`).
fn filter_links(rows: &Vec<DBSleepTags>, sleep_id: Option<i64>, tag_id: Option<i64>, keep: bool) -> (r:
    Vec<DBSleepTags>)
    ensures
        r@ == select_links(rows@, sleep_id, tag_id, keep),
{
    let mut out: Vec<DBSleepTags> = Vec::new();
    let mut i: usize = 0;
    assert(rows@.take(0) =~= Seq::<DBSleepTags>::empty());
    while i < rows.len()
        invariant
            i <= rows@.len(),
            out@ == select_links(rows@.take(i as int), sleep_id, tag_id, keep),
        decreases rows@.len() - i,
    {
        let row = rows[i];
        assert(rows@.take(i + 1).drop_last() =~= rows@.take(i as int));
        let by_sleep = match sleep_id {
            Some(s) => row.sleep_id == s,
            None => true,
        };
        let by_tag = match tag_id {
            Some(t) => row.tag_id == t,
            None => true,
        };
        if (by_sleep && by_tag) == keep {
            out.push(row);
        }
        i = i + 1;
    }
    assert(rows@.take(rows@.len() as int) =~= rows@);
    out
}

/// The comments on the sleep (`keep`) or on other sleeps (`!keep`).
fn filter_comments(rows: &Vec<DBComment>, sleep_id: i64, keep: bool) -> (r: Vec<DBComment>)
    ensures
        comment_views(r@) == select_comments(comment_views(rows@), sleep_id, keep),
{
    let mut out: Vec<DBComment> = Vec::new();
    let mut i: usize = 0;
    assert(comment_views(rows@).take(0) =~= Seq::<CommentView>::empty());
    assert(comment_views(out@) =~= Seq::<CommentView>::empty());
    while i < rows.len()
        invariant
            i <= rows@.len(),
            comment_views(out@) == select_comments(comment_views(rows@).take(i as int), sleep_id, keep),
        decreases rows@.len() - i,
    {
        let row = rows[i].duplicate();
        assert(comment_views(rows@).take(i + 1).drop_last() =~= comment_views(rows@).take(i as int));
        if (row.sleep_id == sleep_id) == keep {
            let ghost before = out@;
            out.push(row);
            assert(comment_views(out@) =~= comment_views(before).push(rows@[i as int]@));
        }
        i = i + 1;
    }
    assert(comment_views(rows@).take(rows@.len() as int) =~= comment_views(rows@));
    out
}

impl DBSleep {
    /// Adds a sleep and returns the id the store gave it.
    pub fn insert(store: &mut Store, night: &str, amount: u64, quality: i64) -> (r: Result<
        i64,
        StoreError,
    >)
        requires
            old(store)@.wf(),
        ensures
            final(store)@.wf(),
            (final(store)@, r) == old(store)@.insert_sleep(night@, amount, quality),
    {
        if store.next_sleep_id == i64::MAX {
            return Err(StoreError::Full);
        }
        let id = store.next_sleep_id;
        let ghost old_model = store@;
        store.sleeps.push(DBSleep { id, night: night.to_owned(), amount, quality });
        store.next_sleep_id = id + 1;
        proof {
            let m = store@;
            let row = SleepView { id, night: night@, amount, quality };
            assert(m.sleeps =~= old_model.sleeps.push(row));
            assert(sleep_ids(m.sleeps) =~= sleep_ids(old_model.sleeps).push(id));
            lemma_push_ids_valid(sleep_ids(old_model.sleeps), id);
            assert forall|x: i64| old_model.has_sleep(x) implies m.has_sleep(x) by {
                let j = choose|j: int|
                    0 <= j < old_model.sleeps.len() && #[trigger] old_model.sleeps[j].id == x;
                assert(m.sleeps[j].id == x);
            }
            assert(m == old_model.insert_sleep(night@, amount, quality).0);
        }
        Ok(id)
    }

    /// The sleep with the id.
    pub fn select_one(store: &Store, id: i64) -> (r: Result<DBSleep, StoreError>)
        requires
            store@.wf(),
        ensures
            match store@.find_sleep(id) {
                Some(v) => r is Ok && r->Ok_0@ == v,
                None => r == Err::<DBSleep, StoreError>(StoreError::NotFound),
            },
    {
        match store.sleep_position(id) {
            Some(i) => Ok(store.sleeps[i].duplicate()),
            None => Err(StoreError::NotFound),
        }
    }

    /// All sleeps, ordered by id.
    pub fn select_all(store: &Store) -> (r: Result<Vec<DBSleep>, StoreError>)
        ensures
            r is Ok,
            sleep_views(r->Ok_0@) == store@.sleeps,
    {
        let mut out: Vec<DBSleep> = Vec::new();
        let mut i: usize = 0;
        while i < store.sleeps.len()
            invariant
                i <= store.sleeps@.len(),
                sleep_views(out@) =~= sleep_views(store.sleeps@).take(i as int),
            decreases store.sleeps@.len() - i,
        {
            let ghost before = out@;
            out.push(store.sleeps[i].duplicate());
            assert(sleep_views(out@) =~= sleep_views(before).push(store.sleeps@[i as int]@));
            i = i + 1;
        }
        assert(sleep_views(store.sleeps@).take(i as int) =~= store@.sleeps);
        Ok(out)
    }

    /// The sleeps of a month, ordered by id: those whose night starts with the
    /// year, a dash and the month padded to two digits.
    pub fn select_by_month(store: &Store, month: u8, year: u16) -> (r: Result<
        Vec<DBSleep>,
        StoreError,
    >)
        ensures
            r is Ok,
            sleep_views(r->Ok_0@) == sleeps_in_month(store@.sleeps, month, year),
    {
        let mut out: Vec<DBSleep> = Vec::new();
        let mut i: usize = 0;
        assert(sleep_views(store.sleeps@).take(0) =~= Seq::<SleepView>::empty());
        assert(sleep_views(out@) =~= Seq::<SleepView>::empty());
        while i < store.sleeps.len()
            invariant
                i <= store.sleeps@.len(),
                sleep_views(out@) == sleeps_in_month(
                    sleep_views(store.sleeps@).take(i as int),
                    month,
                    year,
                ),
            decreases store.sleeps@.len() - i,
        {
            assert(sleep_views(store.sleeps@).take(i + 1).drop_last() =~= sleep_views(
                store.sleeps@,
            ).take(i as int));
            if crate::night::night_in_month(store.sleeps[i].night.as_str(), month, year) {
                let ghost before = out@;
                out.push(store.sleeps[i].duplicate());
                assert(sleep_views(out@) =~= sleep_views(before).push(store.sleeps@[i as int]@));
            }
            i = i + 1;
        }
        assert(sleep_views(store.sleeps@).take(i as int) =~= store@.sleeps);
        Ok(out)
    }

    /// Sets the amount of the sleep with the id; `Ok(false)` where there is none.
    pub fn update_amount(store: &mut Store, id: i64, amount: u64) -> (r: Result<bool, StoreError>)
        requires
            old(store)@.wf(),
        ensures
            final(store)@.wf(),
            final(store)@ == old(store)@.update_sleep_amount(id, amount).0,
            r == Ok::<bool, StoreError>(old(store)@.update_sleep_amount(id, amount).1),
    {
        match store.sleep_position(id) {
            Some(i) => {
                let ghost old_model = store@;
                let mut row = store.sleeps[i].duplicate();
                row.amount = amount;
                store.sleeps.set(i, row);
                proof {
                    let m = store@;
                    assert(m.sleeps =~= old_model.sleeps.update(
                        i as int,
                        SleepView { amount, ..old_model.sleeps[i as int] },
                    ));
                    assert(sleep_ids(m.sleeps) =~= sleep_ids(old_model.sleeps));
                    lemma_same_sleep_ids(old_model, m);
                    assert(ids_valid(sleep_ids(m.sleeps), m.next_sleep_id));
                    assert(forall|k: int| 0 <= k < m.sleep_tags.len() ==> m.has_sleep(m.sleep_tags[k].sleep_id));
                    assert(forall|k: int| 0 <= k < m.comments.len() ==> m.has_sleep(m.comments[k].sleep_id));
                    assert(m == old_model.update_sleep_amount(id, amount).0);
                }
                Ok(true)
            },
            None => Ok(false),
        }
    }

    /// Sets the quality of the sleep with the id; `Ok(false)` where there is none.
    pub fn update_quality(store: &mut Store, id: i64, quality: i64) -> (r: Result<bool, StoreError>)
        requires
            old(store)@.wf(),
        ensures
            final(store)@.wf(),
            final(store)@ == old(store)@.update_sleep_quality(id, quality).0,
            r == Ok::<bool, StoreError>(old(store)@.update_sleep_quality(id, quality).1),
    {
        match store.sleep_position(id) {
            Some(i) => {
                let ghost old_model = store@;
                let mut row = store.sleeps[i].duplicate();
                row.quality = quality;
                store.sleeps.set(i, row);
                proof {
                    let m = store@;
                    assert(m.sleeps =~= old_model.sleeps.update(
                        i as int,
                        SleepView { quality, ..old_model.sleeps[i as int] },
                    ));
                    assert(sleep_ids(m.sleeps) =~= sleep_ids(old_model.sleeps));
                    lemma_same_sleep_ids(old_model, m);
                    assert(ids_valid(sleep_ids(m.sleeps), m.next_sleep_id));
                    assert(forall|k: int| 0 <= k < m.sleep_tags.len() ==> m.has_sleep(m.sleep_tags[k].sleep_id));
                    assert(forall|k: int| 0 <= k < m.comments.len() ==> m.has_sleep(m.comments[k].sleep_id));
                    assert(m == old_model.update_sleep_quality(id, quality).0);
                }
                Ok(true)
            },
            None => Ok(false),
        }
    }
}


/// Removing a row other than the one with `x` keeps the row with `x`.
pub proof fn lemma_remove_keeps_sleep(s: Seq<SleepView>, pos: int, x: i64)
    requires
        0 <= pos < s.len(),
        s[pos].id != x,
        exists|j: int| 0 <= j < s.len() && #[trigger] s[j].id == x,
    ensures
        exists|j: int| 0 <= j < s.remove(pos).len() && #[trigger] s.remove(pos)[j].id == x,
{
    let j = choose|j: int| 0 <= j < s.len() && #[trigger] s[j].id == x;
    if j < pos {
        assert(s.remove(pos)[j].id == x);
    } else {
        assert(s.remove(pos)[j - 1].id == x);
    }
}

/// Removing a row other than the one with `x` keeps the row with `x`.
pub proof fn lemma_remove_keeps_tag(s: Seq<TagView>, pos: int, x: i64)
    requires
        0 <= pos < s.len(),
        s[pos].id != x,
        exists|j: int| 0 <= j < s.len() && #[trigger] s[j].id == x,
    ensures
        exists|j: int| 0 <= j < s.remove(pos).len() && #[trigger] s.remove(pos)[j].id == x,
{
    let j = choose|j: int| 0 <= j < s.len() && #[trigger] s[j].id == x;
    if j < pos {
        assert(s.remove(pos)[j].id == x);
    } else {
        assert(s.remove(pos)[j - 1].id == x);
    }
}

impl DBSleep {
    /// Deletes the sleep with the id, and with it the junction rows and the
    /// comments that reference it; `Ok(false)` where there is none.
    pub fn delete(store: &mut Store, id: i64) -> (r: Result<bool, StoreError>)
        requires
            old(store)@.wf(),
        ensures
            final(store)@.wf(),
            final(store)@ == old(store)@.delete_sleep(id).0,
            r == Ok::<bool, StoreError>(old(store)@.delete_sleep(id).1),
    {
        match store.sleep_position(id) {
            Some(i) => {
                let ghost old_model = store@;
                let _ = store.sleeps.remove(i);
                let links = filter_links(&store.sleep_tags, Some(id), None, false);
                store.sleep_tags = links;
                let comments = filter_comments(&store.comments, id, false);
                store.comments = comments;
                proof {
                    let m = store@;
                    let pos = i as int;
                    assert(m.sleeps =~= old_model.sleeps.remove(pos));
                    assert(sleep_ids(m.sleeps) =~= sleep_ids(old_model.sleeps).remove(pos));
                    lemma_remove_ids_valid(sleep_ids(old_model.sleeps), old_model.next_sleep_id, pos);
                    lemma_select_links(old_model.sleep_tags, Some(id), None, false, old_model.next_sleep_tag_id);
                    lemma_select_comments(old_model.comments, id, false, old_model.next_comment_id);
                    assert forall|k: int| 0 <= k < m.sleep_tags.len() implies m.has_sleep(
                        #[trigger] m.sleep_tags[k].sleep_id,
                    ) && m.has_tag(m.sleep_tags[k].tag_id) by {
                        let x = m.sleep_tags[k];
                        assert(m.sleep_tags.contains(x));
                        let j = choose|j: int| 0 <= j < old_model.sleep_tags.len() && old_model.sleep_tags[j] == x;
                        assert(old_model.sleep_tags[j].sleep_id == x.sleep_id);
                        assert(old_model.has_sleep(x.sleep_id) && old_model.has_tag(x.tag_id));
                        assert(!link_matches(x, Some(id), None));
                        assert(old_model.sleeps[pos].id == id);
                        lemma_remove_keeps_sleep(old_model.sleeps, pos, x.sleep_id);
                        assert(m.tags == old_model.tags);
                    }
                    assert forall|k: int| 0 <= k < m.comments.len() implies m.has_sleep(
                        #[trigger] m.comments[k].sleep_id,
                    ) by {
                        let x = m.comments[k];
                        assert(m.comments.contains(x));
                        let j = choose|j: int| 0 <= j < old_model.comments.len() && old_model.comments[j] == x;
                        assert(old_model.comments[j].sleep_id == x.sleep_id);
                        assert(old_model.has_sleep(x.sleep_id));
                        assert(old_model.sleeps[pos].id == id);
                        lemma_remove_keeps_sleep(old_model.sleeps, pos, x.sleep_id);
                    }
                    assert(m == old_model.delete_sleep(id).0);
                }
                Ok(true)
            },
            None => Ok(false),
        }
    }
}


impl DBTag {
    /// Adds a tag and returns the id the store gave it.
    pub fn insert(store: &mut Store, name: &str, color: i64) -> (r: Result<i64, StoreError>)
        requires
            old(store)@.wf(),
        ensures
            final(store)@.wf(),
            (final(store)@, r) == old(store)@.insert_tag(name@, color),
    {
        if store.next_tag_id == i64::MAX {
            return Err(StoreError::Full);
        }
        let id = store.next_tag_id;
        let ghost old_model = store@;
        store.tags.push(DBTag { id, name: name.to_owned(), color });
        store.next_tag_id = id + 1;
        proof {
            let m = store@;
            let row = TagView { id, name: name@, color };
            assert(m.tags =~= old_model.tags.push(row));
            assert(tag_ids(m.tags) =~= tag_ids(old_model.tags).push(id));
            lemma_push_ids_valid(tag_ids(old_model.tags), id);
            assert forall|x: i64| old_model.has_tag(x) implies m.has_tag(x) by {
                let j = choose|j: int| 0 <= j < old_model.tags.len() && #[trigger] old_model.tags[j].id == x;
                assert(m.tags[j].id == x);
            }
            assert forall|k: int| 0 <= k < m.sleep_tags.len() implies m.has_sleep(
                #[trigger] m.sleep_tags[k].sleep_id,
            ) && m.has_tag(m.sleep_tags[k].tag_id) by {
                let x = old_model.sleep_tags[k];
                assert(old_model.has_sleep(x.sleep_id) && old_model.has_tag(x.tag_id));
                assert(m.sleep_tags[k] == x);
                assert(m.sleeps == old_model.sleeps);
            }
            assert(m == old_model.insert_tag(name@, color).0);
        }
        Ok(id)
    }

    /// The tag with the id.
    pub fn select_one(store: &Store, id: i64) -> (r: Result<DBTag, StoreError>)
        requires
            store@.wf(),
        ensures
            match store@.find_tag(id) {
                Some(v) => r is Ok && r->Ok_0@ == v,
                None => r == Err::<DBTag, StoreError>(StoreError::NotFound),
            },
    {
        match store.tag_position(id) {
            Some(i) => Ok(store.tags[i].duplicate()),
            None => Err(StoreError::NotFound),
        }
    }

    /// All tags, ordered by id.
    pub fn select_all(store: &Store) -> (r: Result<Vec<DBTag>, StoreError>)
        ensures
            r is Ok,
            tag_views(r->Ok_0@) == store@.tags,
    {
        let mut out: Vec<DBTag> = Vec::new();
        let mut i: usize = 0;
        while i < store.tags.len()
            invariant
                i <= store.tags@.len(),
                tag_views(out@) =~= tag_views(store.tags@).take(i as int),
            decreases store.tags@.len() - i,
        {
            let ghost before = out@;
            out.push(store.tags[i].duplicate());
            assert(tag_views(out@) =~= tag_views(before).push(store.tags@[i as int]@));
            i = i + 1;
        }
        assert(tag_views(store.tags@).take(i as int) =~= store@.tags);
        Ok(out)
    }

    /// Sets the name of the tag with the id; `Ok(false)` where there is none.
    pub fn update_name(store: &mut Store, id: i64, name: &str) -> (r: Result<bool, StoreError>)
        requires
            old(store)@.wf(),
        ensures
            final(store)@.wf(),
            final(store)@ == old(store)@.update_tag_name(id, name@).0,
            r == Ok::<bool, StoreError>(old(store)@.update_tag_name(id, name@).1),
    {
        match store.tag_position(id) {
            Some(i) => {
                let ghost old_model = store@;
                let mut row = store.tags[i].duplicate();
                row.name = name.to_owned();
                store.tags.set(i, row);
                proof {
                    let m = store@;
                    assert(m.tags =~= old_model.tags.update(
                        i as int,
                        TagView { name: name@, ..old_model.tags[i as int] },
                    ));
                    assert(tag_ids(m.tags) =~= tag_ids(old_model.tags));
                    lemma_same_tag_ids(old_model, m);
                    assert(m.sleep_tags == old_model.sleep_tags && m.sleeps == old_model.sleeps);
                    assert(old_model.wf());
                    assert(ids_valid(tag_ids(m.tags), m.next_tag_id));
                    assert forall|k: int| 0 <= k < m.sleep_tags.len() implies m.has_sleep(
                        #[trigger] m.sleep_tags[k].sleep_id,
                    ) && m.has_tag(m.sleep_tags[k].tag_id) by {
                        let x = old_model.sleep_tags[k];
                        assert(0 <= k < old_model.sleep_tags.len());
                        assert(old_model.has_sleep(old_model.sleep_tags[k].sleep_id));
                        assert(old_model.has_sleep(x.sleep_id) && old_model.has_tag(x.tag_id));
                        assert(m.sleep_tags[k] == x);
                        assert(m.sleeps == old_model.sleeps);
                    }
                    assert(m == old_model.update_tag_name(id, name@).0);
                }
                Ok(true)
            },
            None => Ok(false),
        }
    }

    /// Sets the color of the tag with the id; `Ok(false)` where there is none.
    pub fn update_color(store: &mut Store, id: i64, color: i64) -> (r: Result<bool, StoreError>)
        requires
            old(store)@.wf(),
        ensures
            final(store)@.wf(),
            final(store)@ == old(store)@.update_tag_color(id, color).0,
            r == Ok::<bool, StoreError>(old(store)@.update_tag_color(id, color).1),
    {
        match store.tag_position(id) {
            Some(i) => {
                let ghost old_model = store@;
                let mut row = store.tags[i].duplicate();
                row.color = color;
                store.tags.set(i, row);
                proof {
                    let m = store@;
                    assert(m.tags =~= old_model.tags.update(
                        i as int,
                        TagView { color, ..old_model.tags[i as int] },
                    ));
                    assert(tag_ids(m.tags) =~= tag_ids(old_model.tags));
                    lemma_same_tag_ids(old_model, m);
                    assert(m.sleep_tags == old_model.sleep_tags && m.sleeps == old_model.sleeps);
                    assert(old_model.wf());
                    assert(ids_valid(tag_ids(m.tags), m.next_tag_id));
                    assert forall|k: int| 0 <= k < m.sleep_tags.len() implies m.has_sleep(
                        #[trigger] m.sleep_tags[k].sleep_id,
                    ) && m.has_tag(m.sleep_tags[k].tag_id) by {
                        let x = old_model.sleep_tags[k];
                        assert(0 <= k < old_model.sleep_tags.len());
                        assert(old_model.has_sleep(old_model.sleep_tags[k].sleep_id));
                        assert(old_model.has_sleep(x.sleep_id) && old_model.has_tag(x.tag_id));
                        assert(m.sleep_tags[k] == x);
                        assert(m.sleeps == old_model.sleeps);
                    }
                    assert(m == old_model.update_tag_color(id, color).0);
                }
                Ok(true)
            },
            None => Ok(false),
        }
    }

    /// Deletes the tag with the id, and with it the junction rows that
    /// reference it; `Ok(false)` where there is none.
    pub fn delete(store: &mut Store, id: i64) -> (r: Result<bool, StoreError>)
        requires
            old(store)@.wf(),
        ensures
            final(store)@.wf(),
            final(store)@ == old(store)@.delete_tag(id).0,
            r == Ok::<bool, StoreError>(old(store)@.delete_tag(id).1),
    {
        match store.tag_position(id) {
            Some(i) => {
                let ghost old_model = store@;
                let _ = store.tags.remove(i);
                let links = filter_links(&store.sleep_tags, None, Some(id), false);
                store.sleep_tags = links;
                proof {
                    let m = store@;
                    let pos = i as int;
                    assert(m.tags =~= old_model.tags.remove(pos));
                    assert(tag_ids(m.tags) =~= tag_ids(old_model.tags).remove(pos));
                    lemma_remove_ids_valid(tag_ids(old_model.tags), old_model.next_tag_id, pos);
                    lemma_select_links(old_model.sleep_tags, None, Some(id), false, old_model.next_sleep_tag_id);
                    assert forall|k: int| 0 <= k < m.sleep_tags.len() implies m.has_sleep(
                        #[trigger] m.sleep_tags[k].sleep_id,
                    ) && m.has_tag(m.sleep_tags[k].tag_id) by {
                        let x = m.sleep_tags[k];
                        assert(m.sleep_tags.contains(x));
                        let j = choose|j: int| 0 <= j < old_model.sleep_tags.len() && old_model.sleep_tags[j] == x;
                        assert(old_model.sleep_tags[j].sleep_id == x.sleep_id);
                        assert(old_model.has_sleep(x.sleep_id) && old_model.has_tag(x.tag_id));
                        assert(!link_matches(x, None, Some(id)));
                        assert(old_model.tags[pos].id == id);
                        lemma_remove_keeps_tag(old_model.tags, pos, x.tag_id);
                        assert(m.sleeps == old_model.sleeps);
                    }
                    assert(m.sleeps == old_model.sleeps);
                    assert(m.comments == old_model.comments);
                    assert(m == old_model.delete_tag(id).0);
                }
                Ok(true)
            },
            None => Ok(false),
        }
    }
}


impl DBSleepTags {
    /// Associates the tag with the sleep and returns the new row's id. Fails
    /// with `ConstraintViolation` where the sleep or the tag does not exist.
    pub fn insert(store: &mut Store, sleep_id: i64, tag_id: i64) -> (r: Result<i64, StoreError>)
        requires
            old(store)@.wf(),
        ensures
            final(store)@.wf(),
            (final(store)@, r) == old(store)@.insert_sleep_tag(sleep_id, tag_id),
    {
        if store.sleep_position(sleep_id).is_none() || store.tag_position(tag_id).is_none() {
            return Err(StoreError::ConstraintViolation);
        }
        if store.next_sleep_tag_id == i64::MAX {
            return Err(StoreError::Full);
        }
        let id = store.next_sleep_tag_id;
        let ghost old_model = store@;
        store.sleep_tags.push(DBSleepTags { id, sleep_id, tag_id });
        store.next_sleep_tag_id = id + 1;
        proof {
            let m = store@;
            let row = DBSleepTags { id, sleep_id, tag_id };
            assert(m.sleep_tags == old_model.sleep_tags.push(row));
            assert(link_ids(m.sleep_tags) =~= link_ids(old_model.sleep_tags).push(id));
            lemma_push_ids_valid(link_ids(old_model.sleep_tags), id);
            assert(m.sleeps == old_model.sleeps && m.tags == old_model.tags);
            assert forall|k: int| 0 <= k < m.sleep_tags.len() implies m.has_sleep(
                #[trigger] m.sleep_tags[k].sleep_id,
            ) && m.has_tag(m.sleep_tags[k].tag_id) by {
                if k < old_model.sleep_tags.len() {
                    assert(old_model.has_sleep(old_model.sleep_tags[k].sleep_id));
                    assert(m.sleep_tags[k] == old_model.sleep_tags[k]);
                }
            }
            assert(m == old_model.insert_sleep_tag(sleep_id, tag_id).0);
        }
        Ok(id)
    }

    /// Deletes every association of the tag with the sleep; `Ok(false)` where
    /// there was none.
    pub fn delete(store: &mut Store, sleep_id: i64, tag_id: i64) -> (r: Result<bool, StoreError>)
        requires
            old(store)@.wf(),
        ensures
            final(store)@.wf(),
            final(store)@ == old(store)@.delete_sleep_tag(sleep_id, tag_id).0,
            r == Ok::<bool, StoreError>(old(store)@.delete_sleep_tag(sleep_id, tag_id).1),
    {
        let ghost old_model = store@;
        let matched = filter_links(&store.sleep_tags, Some(sleep_id), Some(tag_id), true);
        let kept = filter_links(&store.sleep_tags, Some(sleep_id), Some(tag_id), false);
        store.sleep_tags = kept;
        proof {
            let m = store@;
            lemma_select_links(old_model.sleep_tags, Some(sleep_id), Some(tag_id), false, old_model.next_sleep_tag_id);
            assert(m.sleeps == old_model.sleeps && m.tags == old_model.tags);
            assert forall|k: int| 0 <= k < m.sleep_tags.len() implies m.has_sleep(
                #[trigger] m.sleep_tags[k].sleep_id,
            ) && m.has_tag(m.sleep_tags[k].tag_id) by {
                let x = m.sleep_tags[k];
                assert(m.sleep_tags.contains(x));
                let j = choose|j: int| 0 <= j < old_model.sleep_tags.len() && old_model.sleep_tags[j] == x;
                assert(old_model.has_sleep(old_model.sleep_tags[j].sleep_id));
            }
            assert(m == old_model.delete_sleep_tag(sleep_id, tag_id).0);
        }
        Ok(matched.len() > 0)
    }

    /// The tags of a sleep as junction rows, ordered by id.
    pub fn select_by_sleep_id(store: &Store, sleep_id: i64) -> (r: Result<Vec<DBSleepTags>, StoreError>)
        ensures
            r is Ok,
            r->Ok_0@ == select_links(store@.sleep_tags, Some(sleep_id), None, true),
    {
        Ok(filter_links(&store.sleep_tags, Some(sleep_id), None, true))
    }

    /// The sleeps of a tag as junction rows, ordered by id.
    pub fn select_by_tag_id(store: &Store, tag_id: i64) -> (r: Result<Vec<DBSleepTags>, StoreError>)
        ensures
            r is Ok,
            r->Ok_0@ == select_links(store@.sleep_tags, None, Some(tag_id), true),
    {
        Ok(filter_links(&store.sleep_tags, None, Some(tag_id), true))
    }
}

/// The junction rows still reference existing rows where the sleeps, the tags
/// and the junction table are unchanged.
pub proof fn lemma_links_unchanged(a: StoreModel, b: StoreModel)
    requires
        a.wf(),
        a.sleeps == b.sleeps,
        a.tags == b.tags,
        a.sleep_tags == b.sleep_tags,
    ensures
        b.links_ok(),
{
    assert forall|k: int| 0 <= k < b.sleep_tags.len() implies b.has_sleep(
        #[trigger] b.sleep_tags[k].sleep_id,
    ) && b.has_tag(b.sleep_tags[k].tag_id) by {
        assert(a.has_sleep(a.sleep_tags[k].sleep_id));
        assert(a.has_tag(a.sleep_tags[k].tag_id));
        assert(b.has_sleep(b.sleep_tags[k].sleep_id));
        assert(b.has_tag(b.sleep_tags[k].tag_id));
    }
}

impl DBComment {
    /// Adds a comment on a sleep and returns the id the store gave it. Fails
    /// with `ConstraintViolation` where the sleep does not exist.
    pub fn insert(store: &mut Store, sleep_id: i64, comment: &str) -> (r: Result<i64, StoreError>)
        requires
            old(store)@.wf(),
        ensures
            final(store)@.wf(),
            (final(store)@, r) == old(store)@.insert_comment(sleep_id, comment@),
    {
        if store.sleep_position(sleep_id).is_none() {
            return Err(StoreError::ConstraintViolation);
        }
        if store.next_comment_id == i64::MAX {
            return Err(StoreError::Full);
        }
        let id = store.next_comment_id;
        let ghost old_model = store@;
        store.comments.push(DBComment { id, sleep_id, comment: comment.to_owned() });
        store.next_comment_id = id + 1;
        proof {
            let m = store@;
            let row = CommentView { id, sleep_id, comment: comment@ };
            assert(m.comments =~= old_model.comments.push(row));
            assert(comment_ids(m.comments) =~= comment_ids(old_model.comments).push(id));
            lemma_push_ids_valid(comment_ids(old_model.comments), id);
            assert(m.sleeps == old_model.sleeps && m.tags == old_model.tags);
            assert(m.sleep_tags == old_model.sleep_tags);
            lemma_links_unchanged(old_model, m);
            assert forall|k: int| 0 <= k < m.comments.len() implies m.has_sleep(
                #[trigger] m.comments[k].sleep_id,
            ) by {
                if k < old_model.comments.len() {
                    assert(old_model.has_sleep(old_model.comments[k].sleep_id));
                    assert(m.comments[k] == old_model.comments[k]);
                }
            }
            assert(m == old_model.insert_comment(sleep_id, comment@).0);
        }
        Ok(id)
    }

    /// The comment with the id.
    pub fn select_by_id(store: &Store, id: i64) -> (r: Result<DBComment, StoreError>)
        requires
            store@.wf(),
        ensures
            match store@.find_comment(id) {
                Some(v) => r is Ok && r->Ok_0@ == v,
                None => r == Err::<DBComment, StoreError>(StoreError::NotFound),
            },
    {
        match store.comment_position(id) {
            Some(i) => Ok(store.comments[i].duplicate()),
            None => Err(StoreError::NotFound),
        }
    }

    /// The comments on a sleep, ordered by id.
    pub fn select_by_sleep_id(store: &Store, sleep_id: i64) -> (r: Result<Vec<DBComment>, StoreError>)
        ensures
            r is Ok,
            comment_views(r->Ok_0@) == select_comments(store@.comments, sleep_id, true),
    {
        Ok(filter_comments(&store.comments, sleep_id, true))
    }

    /// Sets the text of the comment with the id; `Ok(false)` where there is none.
    pub fn update_comment(store: &mut Store, id: i64, comment: &str) -> (r: Result<bool, StoreError>)
        requires
            old(store)@.wf(),
        ensures
            final(store)@.wf(),
            final(store)@ == old(store)@.update_comment(id, comment@).0,
            r == Ok::<bool, StoreError>(old(store)@.update_comment(id, comment@).1),
    {
        match store.comment_position(id) {
            Some(i) => {
                let ghost old_model = store@;
                let mut row = store.comments[i].duplicate();
                row.comment = comment.to_owned();
                store.comments.set(i, row);
                proof {
                    let m = store@;
                    assert(m.comments =~= old_model.comments.update(
                        i as int,
                        CommentView { comment: comment@, ..old_model.comments[i as int] },
                    ));
                    assert(comment_ids(m.comments) =~= comment_ids(old_model.comments));
                    assert(m.sleeps == old_model.sleeps && m.tags == old_model.tags);
                    assert(m.sleep_tags == old_model.sleep_tags);
                    lemma_links_unchanged(old_model, m);
                    assert forall|k: int| 0 <= k < m.comments.len() implies m.has_sleep(
                        #[trigger] m.comments[k].sleep_id,
                    ) by {
                        assert(old_model.has_sleep(old_model.comments[k].sleep_id));
                        assert(m.comments[k].sleep_id == old_model.comments[k].sleep_id);
                    }
                    assert(m == old_model.update_comment(id, comment@).0);
                }
                Ok(true)
            },
            None => Ok(false),
        }
    }

    /// Deletes the comment with the id; `Ok(false)` where there is none.
    pub fn delete(store: &mut Store, id: i64) -> (r: Result<bool, StoreError>)
        requires
            old(store)@.wf(),
        ensures
            final(store)@.wf(),
            final(store)@ == old(store)@.delete_comment(id).0,
            r == Ok::<bool, StoreError>(old(store)@.delete_comment(id).1),
    {
        match store.comment_position(id) {
            Some(i) => {
                let ghost old_model = store@;
                let _ = store.comments.remove(i);
                proof {
                    let m = store@;
                    let pos = i as int;
                    assert(m.comments =~= old_model.comments.remove(pos));
                    assert(comment_ids(m.comments) =~= comment_ids(old_model.comments).remove(pos));
                    lemma_remove_ids_valid(comment_ids(old_model.comments), old_model.next_comment_id, pos);
                    assert(m.sleeps == old_model.sleeps && m.tags == old_model.tags);
                    assert(m.sleep_tags == old_model.sleep_tags);
                    lemma_links_unchanged(old_model, m);
                    assert forall|k: int| 0 <= k < m.comments.len() implies m.has_sleep(
                        #[trigger] m.comments[k].sleep_id,
                    ) by {
                        let o = if k < pos { k } else { k + 1 };
                        assert(old_model.has_sleep(old_model.comments[o].sleep_id));
                        assert(m.comments[k] == old_model.comments[o]);
                    }
                    assert(m == old_model.delete_comment(id).0);
                }
                Ok(true)
            },
            None => Ok(false),
        }
    }
}

} // verus!
