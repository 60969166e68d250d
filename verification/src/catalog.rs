//! The catalog of videos and its three orders.

use vstd::prelude::*;
use vstd::seq_lib::to_multiset_build;
use crate::text::{
    lemma_lex_le_antisymmetric, lemma_lex_le_total, lemma_lex_le_transitive, lex_le, lex_le_test,
    same_text,
};

verus! {

/// One video of the catalog.
///
/// The publish date is an instant: whole seconds since the Unix epoch and the
/// nanoseconds within that second. `minutes_rank` places the numeric length on
/// the integer line, so that a longer video has a greater rank; it is `None`
/// where the length has no place in the numeric order.
#[derive(Clone, Debug, PartialEq, Eq)]
pub struct Video {
    pub title: String,
    pub url: String,
    pub publish_seconds: i64,
    pub publish_nanos: u32,
    pub length_minutes: String,
    pub minutes_rank: Option<i64>,
}

/// The keys that the catalog can be ordered by.
#[derive(Clone, Copy, Debug, PartialEq, Eq)]
pub enum SortKey {
    PublishDate,
    LengthMinutes,
    Title,
}

/// The rank of a video's length as a number; zero where it has none.
pub open spec fn rank_value(video: Video) -> int {
    match video.minutes_rank {
        Some(rank) => rank as int,
        None => 0,
    }
}

/// Whether `a` was published no later than `b`.
pub open spec fn published_no_later(a: Video, b: Video) -> bool {
    a.publish_seconds < b.publish_seconds || (a.publish_seconds == b.publish_seconds
        && a.publish_nanos <= b.publish_nanos)
}

/// Whether `a` may stand before `b` in the order of `key`: by title in
/// dictionary order, by publish date the most recent first, by length the
/// shortest first.
pub open spec fn precedes(key: SortKey, a: Video, b: Video) -> bool {
    match key {
        SortKey::Title => lex_le(a.title@, b.title@),
        SortKey::PublishDate => published_no_later(b, a),
        SortKey::LengthMinutes => rank_value(a) <= rank_value(b),
    }
}

/// Whether `a` and `b` have the same place in the order of `key`.
pub open spec fn same_place(key: SortKey, a: Video, b: Video) -> bool {
    precedes(key, a, b) && precedes(key, b, a)
}

/// The videos that share the place of `pivot`, as a predicate.
pub open spec fn place_of(key: SortKey, pivot: Video) -> spec_fn(Video) -> bool {
    |video: Video| same_place(key, pivot, video)
}

/// Whether every video of `list` may stand before all that follow it.
pub open spec fn is_sorted(list: Seq<Video>, key: SortKey) -> bool {
    forall|i: int, j: int| 0 <= i < j < list.len() ==> precedes(key, list[i], list[j])
}

/// Of two videos, one may stand before the other.
pub proof fn lemma_precedes_total(key: SortKey, a: Video, b: Video)
    ensures
        precedes(key, a, b) || precedes(key, b, a),
{
    lemma_lex_le_total(a.title@, b.title@);
}

/// Each order is transitive.
pub proof fn lemma_precedes_transitive(key: SortKey, a: Video, b: Video, c: Video)
    requires
        precedes(key, a, b),
        precedes(key, b, c),
    ensures
        precedes(key, a, c),
{
    if key == SortKey::Title {
        lemma_lex_le_transitive(a.title@, b.title@, c.title@);
    }
}

/// Two videos have the same place exactly when their keys are equal.
pub proof fn lemma_same_place(key: SortKey, a: Video, b: Video)
    ensures
        same_place(key, a, b) <==> match key {
            SortKey::Title => a.title@ == b.title@,
            SortKey::PublishDate => a.publish_seconds == b.publish_seconds && a.publish_nanos
                == b.publish_nanos,
            SortKey::LengthMinutes => rank_value(a) == rank_value(b),
        },
{
    if key == SortKey::Title {
        if same_place(key, a, b) {
            lemma_lex_le_antisymmetric(a.title@, b.title@);
        }
        lemma_lex_le_total(a.title@, a.title@);
    }
}

/// `list` with `item` put behind the last video that may stand before it.
pub open spec fn insert_sorted(list: Seq<Video>, item: Video, key: SortKey) -> Seq<Video>
    decreases list.len(),
{
    if list.len() == 0 {
        seq![item]
    } else if precedes(key, list.last(), item) {
        list.push(item)
    } else {
        insert_sorted(list.drop_last(), item, key).push(list.last())
    }
}

/// `list` in the order of `key`; videos with the same place keep the order
/// that they had.
pub open spec fn stable_sorted(list: Seq<Video>, key: SortKey) -> Seq<Video>
    decreases list.len(),
{
    if list.len() == 0 {
        list
    } else {
        insert_sorted(stable_sorted(list.drop_last(), key), list.last(), key)
    }
}

/// Where `insert_sorted` puts the item: at the position behind which no video
/// may stand before it, and before which the nearest one may.
pub proof fn lemma_insert_position(list: Seq<Video>, item: Video, key: SortKey, at: int)
    requires
        0 <= at <= list.len(),
        at > 0 ==> precedes(key, list[at - 1], item),
        forall|k: int| at <= k < list.len() ==> !precedes(key, #[trigger] list[k], item),
    ensures
        insert_sorted(list, item, key) == list.insert(at, item),
    decreases list.len() - at,
{
    if at == list.len() {
        assert(list.insert(at, item) == list.push(item));
    } else {
        let front = list.drop_last();
        assert(!precedes(key, list[list.len() - 1], item));
        lemma_insert_position(front, item, key, at);
        assert(front.insert(at, item).push(list.last()) == list.insert(at, item));
    }
}

/// What `insert_sorted` keeps: the videos, their order where the list was in
/// order, and the order within each place.
proof fn lemma_insert_sorted_shape(list: Seq<Video>, item: Video, key: SortKey)
    ensures
        insert_sorted(list, item, key).len() == list.len() + 1,
        insert_sorted(list, item, key).to_multiset() == list.to_multiset().insert(item),
        is_sorted(list, key) ==> is_sorted(insert_sorted(list, item, key), key),
        forall|pivot: Video|
            insert_sorted(list, item, key).filter(#[trigger] place_of(key, pivot)) == if same_place(
                key,
                pivot,
                item,
            ) {
                list.filter(place_of(key, pivot)).push(item)
            } else {
                list.filter(place_of(key, pivot))
            },
    decreases list.len(),
{
    let out = insert_sorted(list, item, key);
    broadcast use Seq::lemma_filter_push;

    if list.len() == 0 {
        to_multiset_build(list, item);
        assert(out == list.push(item));
    } else if precedes(key, list.last(), item) {
        to_multiset_build(list, item);
        if is_sorted(list, key) {
            assert forall|i: int, j: int| 0 <= i < j < out.len() implies precedes(
                key,
                out[i],
                out[j],
            ) by {
                if j == list.len() && i < list.len() - 1 {
                    lemma_precedes_transitive(key, list[i], list.last(), item);
                }
            }
        }
    } else {
        let front = list.drop_last();
        let last = list.last();
        let inner = insert_sorted(front, item, key);
        lemma_insert_sorted_shape(front, item, key);
        assert(list == front.push(last));
        to_multiset_build(front, last);
        to_multiset_build(inner, last);
        assert(out.to_multiset() =~= list.to_multiset().insert(item));
        lemma_precedes_total(key, last, item);
        if is_sorted(list, key) {
            assert(is_sorted(front, key)) by {
                assert forall|i: int, j: int| 0 <= i < j < front.len() implies precedes(
                    key,
                    front[i],
                    front[j],
                ) by {
                    assert(front[i] == list[i] && front[j] == list[j]);
                }
            }
            assert forall|i: int, j: int| 0 <= i < j < out.len() implies precedes(
                key,
                out[i],
                out[j],
            ) by {
                if j == inner.len() {
                    // every video of `inner` is `item` or one of `front`
                    assert(inner.to_multiset().count(inner[i]) > 0) by {
                        inner.to_multiset_ensures();
                        assert(inner.contains(inner[i]));
                    }
                    if inner[i] != item {
                        assert(front.to_multiset().count(inner[i]) > 0);
                        front.to_multiset_ensures();
                        assert(front.contains(inner[i]));
                        let k = choose|k: int| 0 <= k < front.len() && front[k] == inner[i];
                        assert(precedes(key, list[k], list[list.len() - 1]));
                    }
                } else {
                    assert(out[i] == inner[i] && out[j] == inner[j]);
                }
            }
        }
        assert forall|pivot: Video|
            out.filter(#[trigger] place_of(key, pivot)) == if same_place(key, pivot, item) {
                list.filter(place_of(key, pivot)).push(item)
            } else {
                list.filter(place_of(key, pivot))
            } by {
            let class = place_of(key, pivot);
            if same_place(key, pivot, item) && same_place(key, pivot, last) {
                lemma_precedes_transitive(key, last, pivot, item);
            }
            assert(out.filter(class) == if class(last) {
                inner.filter(class).push(last)
            } else {
                inner.filter(class)
            });
            assert(list.filter(class) == if class(last) {
                front.filter(class).push(last)
            } else {
                front.filter(class)
            });
        }
    }
}

/// Sorting keeps the videos, puts them in order, and leaves those that share a
/// place in the order that they had.
pub proof fn lemma_stable_sorted(list: Seq<Video>, key: SortKey)
    ensures
        stable_sorted(list, key).len() == list.len(),
        stable_sorted(list, key).to_multiset() == list.to_multiset(),
        is_sorted(stable_sorted(list, key), key),
        forall|pivot: Video|
            stable_sorted(list, key).filter(#[trigger] place_of(key, pivot)) == list.filter(
                place_of(key, pivot),
            ),
    decreases list.len(),
{
    broadcast use Seq::lemma_filter_push;

    if list.len() > 0 {
        let front = list.drop_last();
        lemma_stable_sorted(front, key);
        lemma_insert_sorted_shape(stable_sorted(front, key), list.last(), key);
        assert(list == front.push(list.last()));
        to_multiset_build(front, list.last());
        assert forall|pivot: Video|
            stable_sorted(list, key).filter(#[trigger] place_of(key, pivot)) == list.filter(
                place_of(key, pivot),
            ) by {
            let class = place_of(key, pivot);
            assert(list.filter(class) == if class(list.last()) {
                front.filter(class).push(list.last())
            } else {
                front.filter(class)
            });
        }
    }
}

/// Whether the length of every video has a rank.
pub open spec fn all_ranked(list: Seq<Video>) -> bool {
    forall|i: int| 0 <= i < list.len() ==> (#[trigger] list[i]).minutes_rank is Some
}

/// Whether `list` can be put in the order of `key`: ordering two or more
/// videos by length needs a rank for each of them.
pub open spec fn can_sort(list: Seq<Video>, key: SortKey) -> bool {
    key == SortKey::LengthMinutes && list.len() >= 2 ==> all_ranked(list)
}

/// Whether `videos` can be put in the order of `key`.
pub fn can_sort_test(videos: &Vec<Video>, key: SortKey) -> (can: bool)
    ensures
        can == can_sort(videos@, key),
{
    match key {
        SortKey::LengthMinutes => {
            if videos.len() < 2 {
                return true;
            }
            let mut i: usize = 0;
            while i < videos.len()
                invariant
                    i <= videos.len(),
                    videos.len() >= 2,
                    key == SortKey::LengthMinutes,
                    forall|k: int| 0 <= k < i ==> (#[trigger] videos@[k]).minutes_rank is Some,
                decreases videos.len() - i,
            {
                if videos[i].minutes_rank.is_none() {
                    assert(videos@[i as int].minutes_rank is None);
                    return false;
                }
                i += 1;
            }
            true
        },
        _ => true,
    }
}

/// Whether `a` may stand before `b` in the order of `key`.
pub fn precedes_test(key: SortKey, a: &Video, b: &Video) -> (before: bool)
    ensures
        before == precedes(key, *a, *b),
{
    match key {
        SortKey::Title => lex_le_test(a.title.as_str(), b.title.as_str()),
        SortKey::PublishDate => b.publish_seconds < a.publish_seconds || (b.publish_seconds
            == a.publish_seconds && b.publish_nanos <= a.publish_nanos),
        SortKey::LengthMinutes => {
            let x: i64 = match a.minutes_rank {
                Some(rank) => rank,
                None => 0,
            };
            let y: i64 = match b.minutes_rank {
                Some(rank) => rank,
                None => 0,
            };
            x <= y
        },
    }
}

/// Puts the videos in the order of `key`. Videos that share a place keep the
/// order that they had.
pub fn sort_videos_by(videos: &mut Vec<Video>, key: SortKey)
    requires
        can_sort(old(videos)@, key),
    ensures
        final(videos)@ == stable_sorted(old(videos)@, key),
        final(videos)@.len() == old(videos)@.len(),
        final(videos)@.to_multiset() == old(videos)@.to_multiset(),
        is_sorted(final(videos)@, key),
        forall|pivot: Video|
            final(videos)@.filter(#[trigger] place_of(key, pivot)) == old(videos)@.filter(
                place_of(key, pivot),
            ),
{
    let ghost start = videos@;
    let mut i: usize = 0;
    proof {
        assert(start.take(0) == Seq::<Video>::empty());
        assert(videos@.skip(0) == start.skip(0));
    }
    while i < videos.len()
        invariant
            i <= videos.len(),
            videos@.len() == start.len(),
            videos@.take(i as int) == stable_sorted(start.take(i as int), key),
            videos@.skip(i as int) == start.skip(i as int),
        decreases videos.len() - i,
    {
        let ghost before = videos@;
        let ghost front = before.take(i as int);
        let item = videos.remove(i);
        proof {
            assert(item == start.skip(i as int)[0]);
            assert(videos@.take(i as int) == front);
        }
        let mut at: usize = i;
        while at > 0 && !precedes_test(key, &videos[at - 1], &item)
            invariant
                at <= i,
                i <= videos.len(),
                videos@.take(i as int) == front,
                forall|k: int| at <= k < i ==> !precedes(key, #[trigger] front[k], item),
            decreases at,
        {
            proof {
                assert(front[at - 1] == videos@[at - 1]);
            }
            at -= 1;
        }
        proof {
            if at > 0 {
                assert(front[at - 1] == videos@[at - 1]);
            }
            lemma_insert_position(front, item, key, at as int);
        }
        let ghost removed = videos@;
        videos.insert(at, item);
        proof {
            assert(start.take(i + 1).drop_last() == start.take(i as int));
            assert(start.take(i + 1).last() == item);
            assert(videos@.take(i + 1) == front.insert(at as int, item)) by {
                assert(removed.take(i as int) == front);
                assert(removed.insert(at as int, item).take(i + 1) =~= removed.take(
                    i as int,
                ).insert(at as int, item));
            }
            assert(videos@.skip(i + 1) == start.skip(i + 1)) by {
                assert(removed.skip(i as int) =~= before.skip(i + 1));
                assert(removed.insert(at as int, item).skip(i + 1) =~= removed.skip(i as int));
                assert(before.skip(i + 1) =~= start.skip(i as int).skip(1));
                assert(start.skip(i as int).skip(1) =~= start.skip(i + 1));
            }
        }
        i += 1;
    }
    proof {
        assert(videos@.take(videos.len() as int) == videos@);
        assert(start.take(start.len() as int) == start);
        lemma_stable_sorted(start, key);
    }
}

/// Orders the catalog by publish date, the most recent first.
pub fn sort_by_publish_date(videos: &mut Vec<Video>)
    ensures
        final(videos)@ == stable_sorted(old(videos)@, SortKey::PublishDate),
        final(videos)@.to_multiset() == old(videos)@.to_multiset(),
        forall|i: int, j: int|
            0 <= i < j < final(videos)@.len() ==> published_no_later(
                final(videos)@[j],
                final(videos)@[i],
            ),
{
    sort_videos_by(videos, SortKey::PublishDate);
    proof {
        let out = videos@;
        assert forall|i: int, j: int| 0 <= i < j < out.len() implies published_no_later(
            out[j],
            out[i],
        ) by {
            assert(precedes(SortKey::PublishDate, out[i], out[j]));
        }
    }
}

/// Orders the catalog by numeric length, the shortest first.
pub fn sort_by_length_minutes(videos: &mut Vec<Video>)
    requires
        old(videos)@.len() >= 2 ==> all_ranked(old(videos)@),
    ensures
        final(videos)@ == stable_sorted(old(videos)@, SortKey::LengthMinutes),
        final(videos)@.to_multiset() == old(videos)@.to_multiset(),
        forall|i: int, j: int|
            0 <= i < j < final(videos)@.len() ==> rank_value(final(videos)@[i]) <= rank_value(
                final(videos)@[j],
            ),
{
    sort_videos_by(videos, SortKey::LengthMinutes);
    proof {
        let out = videos@;
        assert forall|i: int, j: int| 0 <= i < j < out.len() implies rank_value(out[i])
            <= rank_value(out[j]) by {
            assert(precedes(SortKey::LengthMinutes, out[i], out[j]));
        }
    }
}

/// Orders the catalog by title, in dictionary order.
pub fn sort_by_title(videos: &mut Vec<Video>)
    ensures
        final(videos)@ == stable_sorted(old(videos)@, SortKey::Title),
        final(videos)@.to_multiset() == old(videos)@.to_multiset(),
        forall|i: int, j: int|
            0 <= i < j < final(videos)@.len() ==> lex_le(
                final(videos)@[i].title@,
                final(videos)@[j].title@,
            ),
{
    sort_videos_by(videos, SortKey::Title);
    proof {
        let out = videos@;
        assert forall|i: int, j: int| 0 <= i < j < out.len() implies lex_le(
            out[i].title@,
            out[j].title@,
        ) by {
            assert(precedes(SortKey::Title, out[i], out[j]));
        }
    }
}

/// The key that a name stands for, if it names one.
pub open spec fn sort_key_of(name: Seq<char>) -> Option<SortKey> {
    if name == "publish_date"@ {
        Some(SortKey::PublishDate)
    } else if name == "length_minutes"@ {
        Some(SortKey::LengthMinutes)
    } else if name == "title"@ {
        Some(SortKey::Title)
    } else {
        None
    }
}

/// The key that a name stands for, if it names one.
pub fn parse_sort_key(name: &str) -> (key: Option<SortKey>)
    ensures
        key == sort_key_of(name@),
{
    if same_text(name, "publish_date") {
        Some(SortKey::PublishDate)
    } else if same_text(name, "length_minutes") {
        Some(SortKey::LengthMinutes)
    } else if same_text(name, "title") {
        Some(SortKey::Title)
    } else {
        None
    }
}

/// What the catalog looks like after a request to order it by `name`: in the
/// order of the key that `name` stands for, or as it was where it stands for
/// none.
pub open spec fn sorted_by_name(list: Seq<Video>, name: Seq<char>) -> Seq<Video> {
    match sort_key_of(name) {
        Some(key) => stable_sorted(list, key),
        None => list,
    }
}

/// Orders the catalog by the key that `sort_by` names. A name that stands for
/// no key leaves the catalog as it is.
pub fn sort_videos(videos: &mut Vec<Video>, sort_by: &str)
    requires
        sort_key_of(sort_by@) is Some ==> can_sort(old(videos)@, sort_key_of(sort_by@).unwrap()),
    ensures
        final(videos)@ == sorted_by_name(old(videos)@, sort_by@),
        sort_key_of(sort_by@) is None ==> final(videos)@ == old(videos)@,
        sort_key_of(sort_by@) is Some ==> is_sorted(
            final(videos)@,
            sort_key_of(sort_by@).unwrap(),
        ),
        final(videos)@.to_multiset() == old(videos)@.to_multiset(),
{
    match parse_sort_key(sort_by) {
        Some(SortKey::PublishDate) => sort_by_publish_date(videos),
        Some(SortKey::LengthMinutes) => sort_by_length_minutes(videos),
        Some(SortKey::Title) => sort_by_title(videos),
        None => (),
    }
    proof {
        if sort_key_of(sort_by@) is Some {
            lemma_stable_sorted(old(videos)@, sort_key_of(sort_by@).unwrap());
        }
    }
}

} // verus!
