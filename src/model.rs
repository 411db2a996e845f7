//! The shapes the query layer exchanges with callers, and the decisions of its
//! queries and mutations, made on top of the [`DBManager`].
use vstd::prelude::*;
use vstd::utf8::encode_utf8;
use crate::rows::{CommentView, DBComment, DBTag, TagView, comment_views, tag_views};
use crate::night::{
    Night, SleepsByMonthInput, SleepsInRangeInput, date_in_range, fields_fit, night_fields,
};
use crate::manager::{
    DBManager, DbmSleep, DbmSleepView, attach_tags, dbm_views, id_or_sentinel, sleep_aggregate,
    tags_of_sleep, without_tags,
};
use crate::store::{StoreModel, select_comments, sleeps_in_month};

verus! {

broadcast use vstd::seq_lib::group_seq_properties;

/// A tag as callers see it.
pub struct Tag {
    /// Primary key.
    pub id: i64,
    /// Name of the tag.
    pub name: String,
    /// Packed RGB color `0xRRGGBB`, e.g. red is 16711680.
    pub color: i64,
}

/// A comment as callers see it.
pub struct Comment {
    /// Primary key.
    pub id: i64,
    /// The sleep the comment belongs to.
    pub sleep_id: i64,
    /// The text of the comment.
    pub comment: String,
}

/// A sleep as callers see it.
pub struct Sleep {
    /// Primary key.
    pub id: i64,
    /// Date of the night.
    pub night: Night,
    /// Hours slept, as the bit pattern of an IEEE-754 double.
    pub amount: u64,
    /// Quality of sleep; the scale is open ended.
    pub quality: i64,
    /// Tags of the sleep, where they were read.
    pub tags: Option<Vec<Tag>>,
    /// Comments on the sleep, where they were read.
    pub comments: Option<Vec<Comment>>,
}

/// What a [`Sleep`] holds.
pub struct SleepEntry {
    pub id: i64,
    pub date: Seq<char>,
    pub year: u16,
    pub month: u8,
    pub day: u8,
    pub amount: u64,
    pub quality: i64,
    pub tags: Option<Seq<TagView>>,
    pub comments: Option<Seq<CommentView>>,
}

impl View for Tag {
    type V = TagView;

    open spec fn view(&self) -> TagView {
        TagView { id: self.id, name: self.name@, color: self.color }
    }
}

impl View for Comment {
    type V = CommentView;

    open spec fn view(&self) -> CommentView {
        CommentView { id: self.id, sleep_id: self.sleep_id, comment: self.comment@ }
    }
}

pub open spec fn tag_list_views(s: Seq<Tag>) -> Seq<TagView> {
    Seq::new(s.len(), |i: int| s[i]@)
}

pub open spec fn comment_list_views(s: Seq<Comment>) -> Seq<CommentView> {
    Seq::new(s.len(), |i: int| s[i]@)
}

impl View for Sleep {
    type V = SleepEntry;

    open spec fn view(&self) -> SleepEntry {
        SleepEntry {
            id: self.id,
            date: self.night.date@,
            year: self.night.year,
            month: self.night.month,
            day: self.night.day,
            amount: self.amount,
            quality: self.quality,
            tags: match self.tags {
                Some(v) => Some(tag_list_views(v@)),
                None => None,
            },
            comments: match self.comments {
                Some(v) => Some(comment_list_views(v@)),
                None => None,
            },
        }
    }
}

pub open spec fn sleep_list_views(s: Seq<Sleep>) -> Seq<SleepEntry> {
    Seq::new(s.len(), |i: int| s[i]@)
}

/// A sleep as callers see it, made from a sleep row and its tags; `None`
/// where its night is not a valid `yyyy-mm-dd` date.
pub open spec fn entry_of(d: DbmSleepView) -> Option<SleepEntry> {
    match night_fields(encode_utf8(d.sleep.night)) {
        Some(f) => if fields_fit(f) {
            Some(
                SleepEntry {
                    id: d.sleep.id,
                    date: d.sleep.night,
                    year: f.0 as u16,
                    month: f.1 as u8,
                    day: f.2 as u8,
                    amount: d.sleep.amount,
                    quality: d.sleep.quality,
                    tags: d.tags,
                    comments: None,
                },
            )
        } else {
            None
        },
        None => None,
    }
}

/// The sleep with the id as callers see it, without tags.
pub open spec fn entry_by_id(m: StoreModel, id: i64) -> Option<SleepEntry> {
    match sleep_aggregate(m, id, false) {
        Some(d) => entry_of(d),
        None => None,
    }
}

/// Sleeps as callers see them; `None` where any night is not a valid date.
pub open spec fn entries_of(s: Seq<DbmSleepView>) -> Option<Seq<SleepEntry>>
    decreases s.len(),
{
    if s.len() == 0 {
        Some(Seq::empty())
    } else {
        match (entries_of(s.drop_last()), entry_of(s.last())) {
            (Some(a), Some(b)) => Some(a.push(b)),
            _ => None,
        }
    }
}

/// Whether a sleep lies in the range, as [`Night::in_date_range`] decides.
pub open spec fn entry_in_range(e: SleepEntry, start: SleepsInRangeInput, end: SleepsInRangeInput) -> bool {
    date_in_range(e.year, e.month, e.day, start, end)
}

/// The sleeps, in order, that lie in the range.
pub open spec fn entries_in_range(s: Seq<SleepEntry>, start: SleepsInRangeInput, end: SleepsInRangeInput) -> Seq<
    SleepEntry,
>
    decreases s.len(),
{
    if s.len() == 0 {
        s
    } else {
        let rest = entries_in_range(s.drop_last(), start, end);
        if entry_in_range(s.last(), start, end) {
            rest.push(s.last())
        } else {
            rest
        }
    }
}

/// Copies tag rows into the callers' shape.
fn tags_from_rows(rows: &Vec<DBTag>) -> (r: Vec<Tag>)
    ensures
        tag_list_views(r@) == tag_views(rows@),
{
    let mut r: Vec<Tag> = Vec::new();
    let mut i: usize = 0;
    while i < rows.len()
        invariant
            i <= rows@.len(),
            tag_list_views(r@) =~= tag_views(rows@).take(i as int),
        decreases rows@.len() - i,
    {
        let ghost before = r@;
        let t = &rows[i];
        r.push(Tag { id: t.id, name: t.name.clone(), color: t.color });
        assert(tag_list_views(r@) =~= tag_list_views(before).push(rows@[i as int]@));
        i = i + 1;
    }
    assert(tag_views(rows@).take(i as int) =~= tag_views(rows@));
    r
}

/// Copies comment rows into the callers' shape.
fn comments_from_rows(rows: &Vec<DBComment>) -> (r: Vec<Comment>)
    ensures
        comment_list_views(r@) == comment_views(rows@),
{
    let mut r: Vec<Comment> = Vec::new();
    let mut i: usize = 0;
    while i < rows.len()
        invariant
            i <= rows@.len(),
            comment_list_views(r@) =~= comment_views(rows@).take(i as int),
        decreases rows@.len() - i,
    {
        let ghost before = r@;
        let c = &rows[i];
        r.push(Comment { id: c.id, sleep_id: c.sleep_id, comment: c.comment.clone() });
        assert(comment_list_views(r@) =~= comment_list_views(before).push(rows@[i as int]@));
        i = i + 1;
    }
    assert(comment_views(rows@).take(i as int) =~= comment_views(rows@));
    r
}

impl Sleep {
    /// The sleep as callers see it; `None` where its night is not a valid date.
    pub fn from_db(db_sleep: &DbmSleep) -> (r: Option<Sleep>)
        ensures
            match r {
                Some(s) => entry_of(db_sleep@) == Some(s@),
                None => entry_of(db_sleep@) is None,
            },
    {
        let night = match Night::from_string(db_sleep.sleep.night.clone()) {
            Some(n) => n,
            None => return None,
        };
        let tags = match &db_sleep.tags {
            Some(v) => Some(tags_from_rows(v)),
            None => None,
        };
        Some(
            Sleep {
                id: db_sleep.sleep.id,
                night,
                amount: db_sleep.sleep.amount,
                quality: db_sleep.sleep.quality,
                tags,
                comments: None,
            },
        )
    }

    /// The sleep with the id as callers see it, without tags.
    pub fn from_sleep_id(dbm: &DBManager, sleep_id: i64) -> (r: Option<Sleep>)
        requires
            dbm.wf(),
        ensures
            match r {
                Some(s) => entry_by_id(dbm@, sleep_id) == Some(s@),
                None => entry_by_id(dbm@, sleep_id) is None,
            },
    {
        match dbm.get_sleep(sleep_id, false) {
            Some(s) => Sleep::from_db(&s),
            None => None,
        }
    }

    /// The sleeps that lie in the inclusive range; `None` stays `None`.
    pub fn filter_sleeps_by_date(
        sleeps: Option<Vec<Sleep>>,
        start_date: &SleepsInRangeInput,
        end_date: &SleepsInRangeInput,
    ) -> (r: Option<Vec<Sleep>>)
        ensures
            match sleeps {
                Some(v) => r is Some && sleep_list_views(r->Some_0@) == entries_in_range(
                    sleep_list_views(v@),
                    *start_date,
                    *end_date,
                ),
                None => r is None,
            },
    {
        let mut v = match sleeps {
            Some(v) => v,
            None => return None,
        };
        let ghost all = sleep_list_views(v@);
        let mut out: Vec<Sleep> = Vec::new();
        let mut i: usize = 0;
        let n = v.len();
        assert(all.take(0) =~= Seq::<SleepEntry>::empty());
        assert(sleep_list_views(out@) =~= Seq::<SleepEntry>::empty());
        while i < n
            invariant
                n == all.len(),
                i <= n,
                v@.len() == n - i,
                sleep_list_views(v@) =~= all.skip(i as int),
                sleep_list_views(out@) == entries_in_range(all.take(i as int), *start_date, *end_date),
            decreases n - i,
        {
            assert(sleep_list_views(v@)[0] == all[i as int]);
            let s = v.remove(0);
            assert(s@ == all[i as int]);
            assert(sleep_list_views(v@) =~= all.skip(i + 1));
            assert(all.take(i + 1).drop_last() =~= all.take(i as int));
            if s.night.in_date_range(start_date, end_date) {
                let ghost before = out@;
                out.push(s);
                assert(sleep_list_views(out@) =~= sleep_list_views(before).push(all[i as int]));
            }
            i = i + 1;
        }
        assert(all.take(n as int) =~= all);
        Some(out)
    }

    /// The tags of this sleep, read from the store.
    pub fn tags(&self, dbm: &DBManager) -> (r: Option<Vec<Tag>>)
        requires
            dbm.wf(),
        ensures
            r is Some,
            tag_list_views(r->Some_0@) == tags_of_sleep(dbm@, self.id),
    {
        match dbm.get_tags_by_sleep(self.id) {
            Some(v) => Some(tags_from_rows(&v)),
            None => None,
        }
    }

    /// The comments on this sleep, read from the store.
    pub fn comments(&self, dbm: &DBManager) -> (r: Option<Vec<Comment>>)
        requires
            dbm.wf(),
        ensures
            r is Some,
            comment_list_views(r->Some_0@) == select_comments(dbm@.comments, self.id, true),
    {
        match dbm.get_comments_by_sleep(self.id) {
            Some(v) => Some(comments_from_rows(&v)),
            None => None,
        }
    }
}

impl Tag {
    /// The tag with the id; `None` where there is none.
    pub fn from_tag_id(dbm: &DBManager, tag_id: i64) -> (r: Option<Tag>)
        requires
            dbm.wf(),
        ensures
            match r {
                Some(t) => dbm@.find_tag(tag_id) == Some(t@),
                None => dbm@.find_tag(tag_id) is None,
            },
    {
        match dbm.get_tag(tag_id) {
            Some(t) => Some(Tag { id: t.id, name: t.name, color: t.color }),
            None => None,
        }
    }
}

impl Comment {
    /// The comment with the id; `None` where there is none.
    pub fn from_comment_id(dbm: &DBManager, comment_id: i64) -> (r: Option<Comment>)
        requires
            dbm.wf(),
        ensures
            match r {
                Some(c) => dbm@.find_comment(comment_id) == Some(c@),
                None => dbm@.find_comment(comment_id) is None,
            },
    {
        match dbm.get_comment(comment_id) {
            Some(c) => Some(Comment { id: c.id, sleep_id: c.sleep_id, comment: c.comment }),
            None => None,
        }
    }
}

/// Sleeps as callers see them; `None` where any night is not a valid date.
fn entries_from(sleeps: &Vec<DbmSleep>) -> (r: Option<Vec<Sleep>>)
    ensures
        match r {
            Some(v) => entries_of(dbm_views(sleeps@)) == Some(sleep_list_views(v@)),
            None => entries_of(dbm_views(sleeps@)) is None,
        },
{
    let ghost all = dbm_views(sleeps@);
    let mut out: Vec<Sleep> = Vec::new();
    let mut i: usize = 0;
    assert(all.take(0) =~= Seq::<DbmSleepView>::empty());
    assert(sleep_list_views(out@) =~= Seq::<SleepEntry>::empty());
    while i < sleeps.len()
        invariant
            all == dbm_views(sleeps@),
            i <= sleeps@.len(),
            entries_of(all.take(i as int)) == Some(sleep_list_views(out@)),
        decreases sleeps@.len() - i,
    {
        assert(all.take(i + 1).drop_last() =~= all.take(i as int));
        match Sleep::from_db(&sleeps[i]) {
            Some(s) => {
                let ghost before = out@;
                out.push(s);
                assert(sleep_list_views(out@) =~= sleep_list_views(before).push(s@));
            },
            None => {
                proof {
                    lemma_entries_fail(all, i as int);
                }
                return None;
            },
        }
        i = i + 1;
    }
    assert(all.take(i as int) =~= all);
    Some(out)
}

/// A sleep whose night is not a valid date makes the whole list fail.
proof fn lemma_entries_fail(s: Seq<DbmSleepView>, i: int)
    requires
        0 <= i < s.len(),
        entry_of(s[i]) is None,
    ensures
        entries_of(s) is None,
    decreases s.len(),
{
    if i < s.len() - 1 {
        lemma_entries_fail(s.drop_last(), i);
    }
}


/// A new sleep, with tags to attach and comments to add.
pub struct SleepInput {
    /// Date of the night, `yyyy-mm-dd`.
    pub night: String,
    /// Hours slept, as the bit pattern of an IEEE-754 double.
    pub amount: u64,
    /// Quality of sleep.
    pub quality: i64,
    /// Tags to attach to the sleep.
    pub tags: Option<Vec<i64>>,
    /// Comments to add to the sleep.
    pub comments: Option<Vec<String>>,
}

/// A new tag.
pub struct TagInput {
    /// Name of the tag.
    pub name: String,
    /// Packed RGB color `0xRRGGBB`.
    pub color: i64,
}

/// Tags to attach to a sleep.
pub struct AddTagsToSleepInput {
    /// The sleep to attach the tags to.
    pub sleep_id: i64,
    /// The tags, attached in this order.
    pub tag_ids: Vec<i64>,
}

/// A comment to add to a sleep.
pub struct AddCommentToSleepInput {
    /// The sleep to add the comment to.
    pub sleep_id: i64,
    /// The text of the comment.
    pub comment: String,
}

/// New values for a sleep; fields left `None` are kept.
#[derive(Clone, Copy, Debug, PartialEq, Eq, Structural)]
pub struct UpdateSleepInput {
    /// The sleep to update.
    pub sleep_id: i64,
    /// New amount, as the bit pattern of an IEEE-754 double.
    pub amount: Option<u64>,
    /// New quality.
    pub quality: Option<i64>,
}

/// New values for a tag; fields left `None` are kept.
pub struct UpdateTagInput {
    /// The tag to update.
    pub tag_id: i64,
    /// New name.
    pub name: Option<String>,
    /// New packed RGB color.
    pub color: Option<i64>,
}

/// New text for a comment.
pub struct UpdateCommentInput {
    /// The comment to update.
    pub comment_id: i64,
    /// The new text.
    pub comment: String,
}

/// A tag to detach from a sleep.
#[derive(Clone, Copy, Debug, PartialEq, Eq, Structural)]
pub struct RemoveTagFromSleepInput {
    /// The sleep to detach the tag from.
    pub sleep_id: i64,
    /// The tag to detach.
    pub tag_id: i64,
}

/// The read operations offered to callers.
pub struct QueryRoot;

/// The write operations offered to callers.
pub struct MutationRoot;

pub open spec fn text_views(s: Seq<String>) -> Seq<Seq<char>> {
    Seq::new(s.len(), |i: int| s[i]@)
}

pub open spec fn entries_view(r: Option<Vec<Sleep>>) -> Option<Seq<SleepEntry>> {
    match r {
        Some(v) => Some(sleep_list_views(v@)),
        None => None,
    }
}

pub open spec fn entry_view(r: Option<Sleep>) -> Option<SleepEntry> {
    match r {
        Some(s) => Some(s@),
        None => None,
    }
}

pub open spec fn tag_view(r: Option<Tag>) -> Option<TagView> {
    match r {
        Some(t) => Some(t@),
        None => None,
    }
}

/// Adds each comment in turn to the sleep; comments that fail are skipped.
pub open spec fn add_comments(m: StoreModel, sleep_id: i64, texts: Seq<Seq<char>>) -> StoreModel
    decreases texts.len(),
{
    if texts.len() == 0 {
        m
    } else {
        add_comments(
            m.insert_comment(sleep_id, texts[0]).0,
            sleep_id,
            texts.subrange(1, texts.len() as int),
        )
    }
}

impl SleepInput {
    pub open spec fn tag_ids_view(&self) -> Option<Seq<i64>> {
        match self.tags {
            Some(v) => Some(v@),
            None => None,
        }
    }

    pub open spec fn comments_view(&self) -> Option<Seq<Seq<char>>> {
        match self.comments {
            Some(v) => Some(text_views(v@)),
            None => None,
        }
    }
}

impl UpdateTagInput {
    pub open spec fn name_view(&self) -> Option<Seq<char>> {
        match self.name {
            Some(v) => Some(v@),
            None => None,
        }
    }
}

/// The store after adding a sleep with its tags and comments, and the id the
/// sleep got (-1 where its insert failed).
pub open spec fn after_add_sleep(
    m: StoreModel,
    night: Seq<char>,
    amount: u64,
    quality: i64,
    tags: Option<Seq<i64>>,
    comments: Option<Seq<Seq<char>>>,
) -> (StoreModel, i64) {
    let (m1, r) = m.insert_sleep(night, amount, quality);
    let id = id_or_sentinel(r);
    let m2 = match tags {
        Some(t) => attach_tags(m1, id, t).0,
        None => m1,
    };
    let m3 = match comments {
        Some(c) => add_comments(m2, id, c),
        None => m2,
    };
    (m3, id)
}

/// The store after the updates a sleep input asks for, and whether any of
/// them changed a row.
pub open spec fn after_update_sleep(m: StoreModel, input: UpdateSleepInput) -> (StoreModel, bool) {
    let (m1, q) = match input.quality {
        Some(q) => m.update_sleep_quality(input.sleep_id, q),
        None => (m, false),
    };
    let (m2, a) = match input.amount {
        Some(a) => m1.update_sleep_amount(input.sleep_id, a),
        None => (m1, false),
    };
    (m2, q || a)
}

/// The store after the updates a tag input asks for, and whether any of them
/// changed a row.
pub open spec fn after_update_tag(m: StoreModel, tag_id: i64, name: Option<Seq<char>>, color: Option<
    i64,
>) -> (StoreModel, bool) {
    let (m1, n) = match name {
        Some(n) => m.update_tag_name(tag_id, n),
        None => (m, false),
    };
    let (m2, c) = match color {
        Some(c) => m1.update_tag_color(tag_id, c),
        None => (m1, false),
    };
    (m2, n || c)
}

impl QueryRoot {
    /// All sleeps, ordered by id; `None` where a night is not a valid date.
    pub fn all_sleeps(&self, dbm: &DBManager) -> (r: Option<Vec<Sleep>>)
        requires
            dbm.wf(),
        ensures
            entries_view(r) == entries_of(without_tags(dbm@.sleeps)),
    {
        match dbm.get_all_sleeps() {
            Some(v) => entries_from(&v),
            None => None,
        }
    }

    /// The sleep with the id.
    pub fn sleep(&self, dbm: &DBManager, id: i64) -> (r: Option<Sleep>)
        requires
            dbm.wf(),
        ensures
            entry_view(r) == entry_by_id(dbm@, id),
    {
        Sleep::from_sleep_id(dbm, id)
    }

    /// The sleeps of a month, ordered by id.
    pub fn sleeps_by_month(&self, dbm: &DBManager, month: SleepsByMonthInput) -> (r: Option<Vec<Sleep>>)
        requires
            dbm.wf(),
        ensures
            entries_view(r) == entries_of(without_tags(sleeps_in_month(dbm@.sleeps, month.month, month.year))),
    {
        match dbm.get_sleeps_by_month(month.month, month.year) {
            Some(v) => entries_from(&v),
            None => None,
        }
    }

    /// The sleeps in an inclusive date range, ordered by id.
    pub fn sleeps_in_range(
        &self,
        dbm: &DBManager,
        start_date: SleepsInRangeInput,
        end_date: SleepsInRangeInput,
    ) -> (r: Option<Vec<Sleep>>)
        requires
            dbm.wf(),
        ensures
            entries_view(r) == match entries_of(without_tags(dbm@.sleeps)) {
                Some(all) => Some(entries_in_range(all, start_date, end_date)),
                None => None,
            },
    {
        let sleeps = self.all_sleeps(dbm);
        Sleep::filter_sleeps_by_date(sleeps, &start_date, &end_date)
    }

    /// The tag with the id.
    pub fn tag(&self, dbm: &DBManager, id: i64) -> (r: Option<Tag>)
        requires
            dbm.wf(),
        ensures
            tag_view(r) == dbm@.find_tag(id),
    {
        Tag::from_tag_id(dbm, id)
    }

    /// All tags, ordered by id.
    pub fn all_tags(&self, dbm: &DBManager) -> (r: Option<Vec<Tag>>)
        requires
            dbm.wf(),
        ensures
            r is Some,
            tag_list_views(r->Some_0@) == dbm@.tags,
    {
        match dbm.get_all_tags() {
            Some(v) => Some(tags_from_rows(&v)),
            None => None,
        }
    }
}

impl MutationRoot {
    /// Adds a sleep, attaches its tags and adds its comments, then reads it back.
    /// Tags and comments that fail are left out; the sleep is `None` where it
    /// could not be added or read back.
    pub fn add_sleep(&self, dbm: &mut DBManager, sleep_input: SleepInput) -> (r: Option<Sleep>)
        requires
            old(dbm).wf(),
        ensures
            final(dbm).wf(),
            final(dbm)@ == after_add_sleep(
                old(dbm)@,
                sleep_input.night@,
                sleep_input.amount,
                sleep_input.quality,
                sleep_input.tag_ids_view(),
                sleep_input.comments_view(),
            ).0,
            entry_view(r) == entry_by_id(
                final(dbm)@,
                after_add_sleep(
                    old(dbm)@,
                    sleep_input.night@,
                    sleep_input.amount,
                    sleep_input.quality,
                    sleep_input.tag_ids_view(),
                    sleep_input.comments_view(),
                ).1,
            ),
    {
        let sleep_id = dbm.insert_sleep(sleep_input.night.as_str(), sleep_input.amount, sleep_input.quality);
        if let Some(tags) = sleep_input.tags {
            dbm.add_tags_to_sleep(sleep_id, tags);
        }
        if let Some(comments) = sleep_input.comments {
            let ghost texts = text_views(comments@);
            let ghost start = dbm@;
            let mut i: usize = 0;
            assert(texts.subrange(0, texts.len() as int) =~= texts);
            while i < comments.len()
                invariant
                    i <= comments@.len(),
                    texts == text_views(comments@),
                    dbm.wf(),
                    add_comments(start, sleep_id, texts) == add_comments(
                        dbm@,
                        sleep_id,
                        texts.subrange(i as int, texts.len() as int),
                    ),
                decreases comments@.len() - i,
            {
                let ghost rest = texts.subrange(i as int, texts.len() as int);
                assert(rest[0] == comments@[i as int]@);
                assert(rest.subrange(1, rest.len() as int) =~= texts.subrange(i + 1, texts.len() as int));
                dbm.insert_comment(sleep_id, comments[i].as_str());
                i = i + 1;
            }
            assert(texts.subrange(i as int, texts.len() as int) =~= Seq::<Seq<char>>::empty());
        }
        Sleep::from_sleep_id(dbm, sleep_id)
    }

    /// Adds a tag and reads it back.
    pub fn add_tag(&self, dbm: &mut DBManager, tag_input: TagInput) -> (r: Option<Tag>)
        requires
            old(dbm).wf(),
        ensures
            final(dbm).wf(),
            final(dbm)@ == old(dbm)@.insert_tag(tag_input.name@, tag_input.color).0,
            tag_view(r) == final(dbm)@.find_tag(
                id_or_sentinel(old(dbm)@.insert_tag(tag_input.name@, tag_input.color).1),
            ),
    {
        let tag_id = dbm.insert_tag(tag_input.name.as_str(), tag_input.color);
        Tag::from_tag_id(dbm, tag_id)
    }

    /// Attaches tags to a sleep, stopping at the first that fails, then reads
    /// the sleep back.
    pub fn add_tags_to_sleep(&self, dbm: &mut DBManager, add_tags_to_sleep_input: AddTagsToSleepInput) -> (r:
        Option<Sleep>)
        requires
            old(dbm).wf(),
        ensures
            final(dbm).wf(),
            final(dbm)@ == attach_tags(
                old(dbm)@,
                add_tags_to_sleep_input.sleep_id,
                add_tags_to_sleep_input.tag_ids@,
            ).0,
            entry_view(r) == entry_by_id(final(dbm)@, add_tags_to_sleep_input.sleep_id),
    {
        let sleep_id = add_tags_to_sleep_input.sleep_id;
        let tag_ids = add_tags_to_sleep_input.tag_ids;
        dbm.add_tags_to_sleep(sleep_id, tag_ids);
        Sleep::from_sleep_id(dbm, sleep_id)
    }

    /// Adds a comment to a sleep, then reads the sleep back.
    pub fn add_comment_to_sleep(
        &self,
        dbm: &mut DBManager,
        add_comment_to_sleep_input: AddCommentToSleepInput,
    ) -> (r: Option<Sleep>)
        requires
            old(dbm).wf(),
        ensures
            final(dbm).wf(),
            final(dbm)@ == old(dbm)@.insert_comment(
                add_comment_to_sleep_input.sleep_id,
                add_comment_to_sleep_input.comment@,
            ).0,
            entry_view(r) == entry_by_id(final(dbm)@, add_comment_to_sleep_input.sleep_id),
    {
        let sleep_id = add_comment_to_sleep_input.sleep_id;
        dbm.insert_comment(sleep_id, add_comment_to_sleep_input.comment.as_str());
        Sleep::from_sleep_id(dbm, sleep_id)
    }

    /// Deletes a sleep; whether there was one.
    pub fn delete_sleep(&self, dbm: &mut DBManager, sleep_id: i64) -> (r: bool)
        requires
            old(dbm).wf(),
        ensures
            final(dbm).wf(),
            (final(dbm)@, r) == old(dbm)@.delete_sleep(sleep_id),
    {
        dbm.delete_sleep(sleep_id)
    }

    /// Deletes a tag; whether there was one.
    pub fn delete_tag(&self, dbm: &mut DBManager, tag_id: i64) -> (r: bool)
        requires
            old(dbm).wf(),
        ensures
            final(dbm).wf(),
            (final(dbm)@, r) == old(dbm)@.delete_tag(tag_id),
    {
        dbm.delete_tag(tag_id)
    }

    /// Deletes a comment; whether there was one.
    pub fn delete_comment(&self, dbm: &mut DBManager, comment_id: i64) -> (r: bool)
        requires
            old(dbm).wf(),
        ensures
            final(dbm).wf(),
            (final(dbm)@, r) == old(dbm)@.delete_comment(comment_id),
    {
        dbm.delete_comment(comment_id)
    }

    /// Applies the quality and amount given, then reads the sleep back where
    /// either changed a row; `None` otherwise.
    pub fn update_sleep(&self, dbm: &mut DBManager, sleep_input: UpdateSleepInput) -> (r: Option<Sleep>)
        requires
            old(dbm).wf(),
        ensures
            final(dbm).wf(),
            final(dbm)@ == after_update_sleep(old(dbm)@, sleep_input).0,
            entry_view(r) == if after_update_sleep(old(dbm)@, sleep_input).1 {
                entry_by_id(final(dbm)@, sleep_input.sleep_id)
            } else {
                None
            },
    {
        let sleep_id = sleep_input.sleep_id;
        let quality_updated = match sleep_input.quality {
            Some(quality) => dbm.update_sleep_quality(sleep_id, quality),
            None => false,
        };
        let amount_updated = match sleep_input.amount {
            Some(amount) => dbm.update_sleep_amount(sleep_id, amount),
            None => false,
        };
        if quality_updated || amount_updated {
            Sleep::from_sleep_id(dbm, sleep_id)
        } else {
            None
        }
    }

    /// Applies the name and color given, then reads the tag back where either
    /// changed a row; `None` otherwise.
    pub fn update_tag(&self, dbm: &mut DBManager, tag_input: UpdateTagInput) -> (r: Option<Tag>)
        requires
            old(dbm).wf(),
        ensures
            final(dbm).wf(),
            final(dbm)@ == after_update_tag(old(dbm)@, tag_input.tag_id, tag_input.name_view(), tag_input.color).0,
            tag_view(r) == if after_update_tag(
                old(dbm)@,
                tag_input.tag_id,
                tag_input.name_view(),
                tag_input.color,
            ).1 {
                final(dbm)@.find_tag(tag_input.tag_id)
            } else {
                None
            },
    {
        let tag_id = tag_input.tag_id;
        let name_updated = match &tag_input.name {
            Some(name) => dbm.update_tag_name(tag_id, name.as_str()),
            None => false,
        };
        let color_updated = match tag_input.color {
            Some(color) => dbm.update_tag_color(tag_id, color),
            None => false,
        };
        if name_updated || color_updated {
            Tag::from_tag_id(dbm, tag_id)
        } else {
            None
        }
    }

    /// Sets the text of a comment, then reads it back where it existed.
    pub fn update_comment(&self, dbm: &mut DBManager, comment_input: UpdateCommentInput) -> (r: Option<
        Comment,
    >)
        requires
            old(dbm).wf(),
        ensures
            final(dbm).wf(),
            final(dbm)@ == old(dbm)@.update_comment(comment_input.comment_id, comment_input.comment@).0,
            match r {
                Some(c) => old(dbm)@.update_comment(comment_input.comment_id, comment_input.comment@).1
                    && final(dbm)@.find_comment(comment_input.comment_id) == Some(c@),
                None => !old(dbm)@.update_comment(comment_input.comment_id, comment_input.comment@).1,
            },
    {
        let ghost before = dbm@;
        let updated = dbm.update_comment(comment_input.comment_id, comment_input.comment.as_str());
        if updated {
            proof {
                let p = before.comment_pos(comment_input.comment_id);
                assert(dbm@.comments[p].id == comment_input.comment_id);
                assert(dbm@.has_comment(comment_input.comment_id));
            }
            Comment::from_comment_id(dbm, comment_input.comment_id)
        } else {
            None
        }
    }

    /// Detaches a tag from a sleep, then reads the sleep back where an
    /// association was removed; `None` otherwise.
    pub fn remove_tag_from_sleep(&self, dbm: &mut DBManager, remove_tag_input: RemoveTagFromSleepInput) -> (r:
        Option<Sleep>)
        requires
            old(dbm).wf(),
        ensures
            final(dbm).wf(),
            final(dbm)@ == old(dbm)@.delete_sleep_tag(remove_tag_input.sleep_id, remove_tag_input.tag_id).0,
            entry_view(r) == if old(dbm)@.delete_sleep_tag(remove_tag_input.sleep_id, remove_tag_input.tag_id).1 {
                entry_by_id(final(dbm)@, remove_tag_input.sleep_id)
            } else {
                None
            },
    {
        let sleep_id = remove_tag_input.sleep_id;
        let removed = dbm.remove_tag_from_sleep(sleep_id, remove_tag_input.tag_id);
        if removed {
            Sleep::from_sleep_id(dbm, sleep_id)
        } else {
            None
        }
    }
}

} // verus!
