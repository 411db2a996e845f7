//! Properties that relate several operations of the store and the manager.
use vstd::prelude::*;
use crate::rows::{DBSleepTags, SleepView, TagView};
use crate::store::{
    StoreError, StoreModel, ids_valid, lemma_push_ids_valid, lemma_select_comments,
    lemma_select_links, lemma_unique_pos, link_matches, select_comments, select_links, sleep_ids,
};
use crate::manager::{attach_tags, link_tag_ids, sleep_aggregate, tags_of_sleep, tags_with_ids};

verus! {

broadcast use vstd::seq_lib::group_seq_properties;

/// A sleep read back by the id its insert returned holds the values it was
/// inserted with; an insert only fails once the table has used its last id.
pub proof fn lemma_sleep_round_trip(m: StoreModel, night: Seq<char>, amount: u64, quality: i64)
    requires
        m.wf(),
    ensures
        match m.insert_sleep(night, amount, quality).1 {
            Ok(id) => m.insert_sleep(night, amount, quality).0.find_sleep(id) == Some(
                SleepView { id, night, amount, quality },
            ),
            Err(e) => e == StoreError::Full && m.next_sleep_id == i64::MAX,
        },
{
    if m.next_sleep_id < i64::MAX {
        let id = m.next_sleep_id;
        let m2 = m.insert_sleep(night, amount, quality).0;
        let last = m.sleeps.len() as int;
        assert(m2.sleeps[last].id == id);
        assert(m2.has_sleep(id));
        assert(sleep_ids(m2.sleeps) =~= sleep_ids(m.sleeps).push(id));
        lemma_push_ids_valid(sleep_ids(m.sleeps), id);
        let p = m2.sleep_pos(id);
        assert(sleep_ids(m2.sleeps)[p] == sleep_ids(m2.sleeps)[last]);
        lemma_unique_pos(sleep_ids(m2.sleeps), m2.next_sleep_id, p, last);
    }
}

/// After a sleep is deleted no junction row and no comment references it, so
/// looking them up by its id gives empty lists.
pub proof fn lemma_delete_sleep_cascades(m: StoreModel, id: i64)
    requires
        m.wf(),
    ensures
        select_links(m.delete_sleep(id).0.sleep_tags, Some(id), None, true).len() == 0,
        select_comments(m.delete_sleep(id).0.comments, id, true).len() == 0,
        m.delete_sleep(id).0.find_sleep(id) is None,
{
    let m2 = m.delete_sleep(id).0;
    lemma_select_links(m2.sleep_tags, Some(id), None, true, 1);
    lemma_select_comments(m2.comments, id, true, 1);
    if m.has_sleep(id) {
        lemma_select_links(m.sleep_tags, Some(id), None, false, 1);
        lemma_select_comments(m.comments, id, false, 1);
        let pos = m.sleep_pos(id);
        assert(!m2.has_sleep(id)) by {
            if m2.has_sleep(id) {
                let j = choose|j: int| 0 <= j < m2.sleeps.len() && #[trigger] m2.sleeps[j].id == id;
                let o = if j < pos { j } else { j + 1 };
                assert(m.sleeps[o].id == id);
                assert(sleep_ids(m.sleeps)[o] == sleep_ids(m.sleeps)[pos]);
                lemma_unique_pos(sleep_ids(m.sleeps), m.next_sleep_id, pos, o);
            }
        }
    } else {
        assert forall|k: int| 0 <= k < m.sleep_tags.len() implies m.sleep_tags[k].sleep_id != id by {
            assert(m.has_sleep(m.sleep_tags[k].sleep_id));
        }
        assert forall|k: int| 0 <= k < m.comments.len() implies m.comments[k].sleep_id != id by {
            assert(m.has_sleep(m.comments[k].sleep_id));
        }
    }
    let r = select_links(m2.sleep_tags, Some(id), None, true);
    if r.len() > 0 {
        assert(r.contains(r[0]));
        let k = choose|k: int| 0 <= k < m2.sleep_tags.len() && m2.sleep_tags[k] == r[0];
        if m.has_sleep(id) {
            assert(m2.sleep_tags.contains(r[0]));
        }
    }
    let c = select_comments(m2.comments, id, true);
    if c.len() > 0 {
        assert(c.contains(c[0]));
        let k = choose|k: int| 0 <= k < m2.comments.len() && m2.comments[k] == c[0];
        if m.has_sleep(id) {
            assert(m2.comments.contains(c[0]));
        }
    }
}

/// The tags kept by an id filter are those whose id is among the ids.
pub proof fn lemma_tags_with_ids(s: Seq<TagView>, ids: Seq<i64>)
    ensures
        forall|t: TagView| #[trigger]
            tags_with_ids(s, ids).contains(t) <==> (s.contains(t) && ids.contains(t.id)),
    decreases s.len(),
{
    let r = tags_with_ids(s, ids);
    if s.len() > 0 {
        let d = s.drop_last();
        lemma_tags_with_ids(d, ids);
        let rd = tags_with_ids(d, ids);
        assert forall|t: TagView| #[trigger] r.contains(t) <==> (s.contains(t) && ids.contains(t.id)) by {
            if s.contains(t) && ids.contains(t.id) {
                let k = choose|k: int| 0 <= k < s.len() && s[k] == t;
                if k < d.len() {
                    assert(d[k] == t);
                    assert(rd.contains(t));
                    let m = choose|m: int| 0 <= m < rd.len() && rd[m] == t;
                    assert(r[m] == t);
                } else {
                    assert(r[rd.len() as int] == t);
                }
            }
            if r.contains(t) {
                let m = choose|m: int| 0 <= m < r.len() && r[m] == t;
                if m < rd.len() {
                    assert(rd[m] == t);
                    assert(rd.contains(t));
                    let k = choose|k: int| 0 <= k < d.len() && d[k] == t;
                    assert(s[k] == t);
                } else {
                    assert(s[s.len() - 1] == t);
                }
            }
        }
    }
}

/// Reading a sleep with its tags gives exactly the tags associated with it,
/// and reading it without them gives no tag list at all.
pub proof fn lemma_tag_aggregation(m: StoreModel, id: i64)
    requires
        m.wf(),
        m.has_sleep(id),
    ensures
        sleep_aggregate(m, id, true) == Some(
            crate::manager::DbmSleepView {
                sleep: m.find_sleep(id)->Some_0,
                tags: Some(tags_of_sleep(m, id)),
            },
        ),
        forall|t: TagView| #[trigger]
            tags_of_sleep(m, id).contains(t) <==> (m.tags.contains(t) && exists|k: int|
                0 <= k < m.sleep_tags.len() && #[trigger] m.sleep_tags[k].sleep_id == id
                    && m.sleep_tags[k].tag_id == t.id),
        sleep_aggregate(m, id, false)->Some_0.tags is None,
{
    let links = select_links(m.sleep_tags, Some(id), None, true);
    let ids = link_tag_ids(links);
    lemma_tags_with_ids(m.tags, ids);
    lemma_select_links(m.sleep_tags, Some(id), None, true, 1);
    assert forall|t: TagView| #[trigger] tags_of_sleep(m, id).contains(t) <==> (m.tags.contains(t)
        && exists|k: int|
        0 <= k < m.sleep_tags.len() && #[trigger] m.sleep_tags[k].sleep_id == id
            && m.sleep_tags[k].tag_id == t.id) by {
        if ids.contains(t.id) {
            let i = choose|i: int| 0 <= i < ids.len() && ids[i] == t.id;
            assert(links.contains(links[i]));
            let k = choose|k: int| 0 <= k < m.sleep_tags.len() && m.sleep_tags[k] == links[i];
            assert(m.sleep_tags[k].sleep_id == id && m.sleep_tags[k].tag_id == t.id);
        }
        if exists|k: int|
            0 <= k < m.sleep_tags.len() && #[trigger] m.sleep_tags[k].sleep_id == id
                && m.sleep_tags[k].tag_id == t.id {
            let k = choose|k: int|
                0 <= k < m.sleep_tags.len() && #[trigger] m.sleep_tags[k].sleep_id == id
                    && m.sleep_tags[k].tag_id == t.id;
            let x = m.sleep_tags[k];
            assert(m.sleep_tags.contains(x));
            assert(link_matches(x, Some(id), None));
            assert(links.contains(x));
            let i = choose|i: int| 0 <= i < links.len() && links[i] == x;
            assert(ids[i] == t.id);
        }
    }
}

/// Attaching a list of tags whose first `k` exist and whose next does not
/// reports failure and leaves the first `k` attached, in order, after the
/// rows that were there before; the other tables are unchanged. The junction
/// table must have room for `k` more ids.
pub proof fn lemma_attach_partial_failure(m: StoreModel, sleep_id: i64, tag_ids: Seq<i64>, k: int)
    requires
        m.has_sleep(sleep_id),
        0 <= k < tag_ids.len(),
        forall|j: int| 0 <= j < k ==> m.has_tag(#[trigger] tag_ids[j]),
        !m.has_tag(tag_ids[k]),
        m.next_sleep_tag_id + k < i64::MAX,
    ensures
        attach_tags(m, sleep_id, tag_ids).1 == false,
        attach_tags(m, sleep_id, tag_ids).0.sleeps == m.sleeps,
        attach_tags(m, sleep_id, tag_ids).0.tags == m.tags,
        attach_tags(m, sleep_id, tag_ids).0.comments == m.comments,
        attach_tags(m, sleep_id, tag_ids).0.sleep_tags.len() == m.sleep_tags.len() + k,
        attach_tags(m, sleep_id, tag_ids).0.sleep_tags.subrange(0, m.sleep_tags.len() as int)
            == m.sleep_tags,
        forall|j: int|
            0 <= j < k ==> #[trigger] attach_tags(m, sleep_id, tag_ids).0.sleep_tags[m.sleep_tags.len()
                + j] == (DBSleepTags { id: (m.next_sleep_tag_id + j) as i64, sleep_id, tag_id: tag_ids[j] }),
    decreases k,
{
    if k == 0 {
        assert(m.sleep_tags.subrange(0, m.sleep_tags.len() as int) =~= m.sleep_tags);
    } else {
        let m1 = m.insert_sleep_tag(sleep_id, tag_ids[0]).0;
        let rest = tag_ids.subrange(1, tag_ids.len() as int);
        assert(m.has_tag(tag_ids[0]));
        assert(m1.sleeps == m.sleeps && m1.tags == m.tags);
        assert forall|j: int| 0 <= j < k - 1 implies m1.has_tag(#[trigger] rest[j]) by {
            assert(rest[j] == tag_ids[j + 1]);
            assert(m.has_tag(tag_ids[j + 1]));
        }
        assert(rest[k - 1] == tag_ids[k]);
        lemma_attach_partial_failure(m1, sleep_id, rest, k - 1);
        let fin = attach_tags(m, sleep_id, tag_ids).0;
        assert(fin == attach_tags(m1, sleep_id, rest).0);
        assert(fin.sleep_tags.subrange(0, m1.sleep_tags.len() as int) == m1.sleep_tags);
        assert(fin.sleep_tags.subrange(0, m.sleep_tags.len() as int) =~= m.sleep_tags) by {
            assert forall|i: int| 0 <= i < m.sleep_tags.len() implies fin.sleep_tags[i] == m.sleep_tags[i] by {
                assert(fin.sleep_tags.subrange(0, m1.sleep_tags.len() as int)[i] == m1.sleep_tags[i]);
            }
        }
        assert forall|j: int| 0 <= j < k implies #[trigger] fin.sleep_tags[m.sleep_tags.len() + j] == (
        DBSleepTags { id: (m.next_sleep_tag_id + j) as i64, sleep_id, tag_id: tag_ids[j] }) by {
            if j == 0 {
                assert(fin.sleep_tags.subrange(0, m1.sleep_tags.len() as int)[m.sleep_tags.len() as int]
                    == m1.sleep_tags[m.sleep_tags.len() as int]);
            } else {
                assert(fin.sleep_tags[m1.sleep_tags.len() + (j - 1)] == (DBSleepTags {
                    id: (m1.next_sleep_tag_id + (j - 1)) as i64,
                    sleep_id,
                    tag_id: rest[j - 1],
                }));
            }
        }
    }
}

/// Updating the amount of a sleep that does not exist reports `false` and
/// changes nothing; likewise for the quality.
pub proof fn lemma_update_missing_sleep(m: StoreModel, id: i64, amount: u64, quality: i64)
    requires
        !m.has_sleep(id),
    ensures
        m.update_sleep_amount(id, amount) == (m, false),
        m.update_sleep_quality(id, quality) == (m, false),
{
}

} // verus!
