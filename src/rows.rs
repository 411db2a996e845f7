//! Row types of the four tables.
use vstd::prelude::*;

verus! {

/// A row of the sleep table.
pub struct DBSleep {
    /// Primary key, assigned by the store.
    pub id: i64,
    /// Date of the night, written `yyyy-mm-dd`.
    pub night: String,
    /// Hours slept, kept as the bit pattern of an IEEE-754 double so that the
    /// value round-trips exactly; the library never does arithmetic on it.
    pub amount: u64,
    /// Quality of sleep; the scale is open ended.
    pub quality: i64,
}

/// A row of the tag table.
pub struct DBTag {
    /// Primary key, assigned by the store.
    pub id: i64,
    /// Name of the tag.
    pub name: String,
    /// Packed RGB color `0xRRGGBB`, e.g. red is 16711680.
    pub color: i64,
}

/// A row of the sleep_tags junction table: one association of a tag with a sleep.
#[derive(Clone, Copy, Debug, PartialEq, Eq, Structural)]
pub struct DBSleepTags {
    /// Primary key, assigned by the store.
    pub id: i64,
    /// References a sleep.
    pub sleep_id: i64,
    /// References a tag.
    pub tag_id: i64,
}

/// A row of the comment table.
pub struct DBComment {
    /// Primary key, assigned by the store.
    pub id: i64,
    /// References the sleep the comment belongs to.
    pub sleep_id: i64,
    /// The text of the comment.
    pub comment: String,
}

/// What a sleep row holds.
pub struct SleepView {
    pub id: i64,
    pub night: Seq<char>,
    pub amount: u64,
    pub quality: i64,
}

/// What a tag row holds.
pub struct TagView {
    pub id: i64,
    pub name: Seq<char>,
    pub color: i64,
}

/// What a comment row holds.
pub struct CommentView {
    pub id: i64,
    pub sleep_id: i64,
    pub comment: Seq<char>,
}

impl View for DBSleep {
    type V = SleepView;

    open spec fn view(&self) -> SleepView {
        SleepView { id: self.id, night: self.night@, amount: self.amount, quality: self.quality }
    }
}

impl View for DBTag {
    type V = TagView;

    open spec fn view(&self) -> TagView {
        TagView { id: self.id, name: self.name@, color: self.color }
    }
}

impl View for DBComment {
    type V = CommentView;

    open spec fn view(&self) -> CommentView {
        CommentView { id: self.id, sleep_id: self.sleep_id, comment: self.comment@ }
    }
}

/// The contents of a list of sleep rows.
pub open spec fn sleep_views(s: Seq<DBSleep>) -> Seq<SleepView> {
    Seq::new(s.len(), |i: int| s[i]@)
}

/// The contents of a list of tag rows.
pub open spec fn tag_views(s: Seq<DBTag>) -> Seq<TagView> {
    Seq::new(s.len(), |i: int| s[i]@)
}

/// The contents of a list of comment rows.
pub open spec fn comment_views(s: Seq<DBComment>) -> Seq<CommentView> {
    Seq::new(s.len(), |i: int| s[i]@)
}

impl DBSleep {
    /// A copy of the row.
    pub fn duplicate(&self) -> (r: DBSleep)
        ensures
            r == *self,
    {
        DBSleep { id: self.id, night: self.night.clone(), amount: self.amount, quality: self.quality }
    }
}

impl DBTag {
    /// A copy of the row.
    pub fn duplicate(&self) -> (r: DBTag)
        ensures
            r == *self,
    {
        DBTag { id: self.id, name: self.name.clone(), color: self.color }
    }
}

impl DBComment {
    /// A copy of the row.
    pub fn duplicate(&self) -> (r: DBComment)
        ensures
            r == *self,
    {
        DBComment { id: self.id, sleep_id: self.sleep_id, comment: self.comment.clone() }
    }
}

} // verus!
