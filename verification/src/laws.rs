use vstd::prelude::*;

use crate::records::{
    CoverV, GameRowV, GameV, PlatformRowV, PlatformV, PopularityPrimitiveV, PopularityRowV,
    WebsiteV,
};
use crate::schema::{constraint_line, remove_matching_lines};
use crate::store::StoreV;
use crate::text::{
    contains_pat, lemma_join_split, lemma_split_join, lemma_split_pieces, matches_at, spec_join,
    spec_split,
};
use crate::sync::{
    covers_after, covers_applied, covers_ops, edge_seq, game_platforms_applied, game_row_applied,
    game_row_of, game_websites_applied, games_after, games_ops, games_phase1, games_phase1_ops,
    games_phase2, games_phase2_ops, phase1_game, phase2_game, platform_row_of, platforms_after,
    platforms_applied, platforms_ops, popularity_applied, popularity_row_of, pops_after, pops_ops,
    present_game_ids, present_platform_ids, present_website_ids, snapshot_after, snapshot_ops,
    upsert_entry, websites_after, websites_applied, websites_ops, SnapshotV,
};
use vstd::map::*;

verus! {

// Laws of the diff-upsert engine, stated over the same spec functions the
// executable functions are proved against. Each public proof function is
// one property of the engine; its doc comment states the law in words.

/// No two records of the batch share a primary key.
pub open spec fn covers_distinct(b: Seq<CoverV>) -> bool {
    forall|i: int, j: int| 0 <= i < j < b.len() ==> (#[trigger] b[i]).id != (#[trigger] b[j]).id
}

/// Some record of the batch carries the key `id`.
pub open spec fn covers_has_id(b: Seq<CoverV>, id: i32) -> bool {
    exists|i: int| 0 <= i < b.len() && (#[trigger] b[i]).id == id
}

/// The image the last record with key `id` carries.
pub open spec fn covers_value(b: Seq<CoverV>, id: i32) -> Seq<char>
    decreases b.len(),
{
    if b.len() == 0 {
        seq![]
    } else if b.last().id == id {
        b.last().image_id
    } else {
        covers_value(b.drop_last(), id)
    }
}

proof fn lemma_covers_has_id_step(b: Seq<CoverV>, id: i32)
    requires
        b.len() > 0,
    ensures
        covers_has_id(b, id) <==> (covers_has_id(b.drop_last(), id) || b.last().id == id),
{
    if covers_has_id(b, id) {
        let i = choose|i: int| 0 <= i < b.len() && (#[trigger] b[i]).id == id;
        if i < b.len() - 1 {
            assert(b.drop_last()[i].id == id);
        }
    }
    if covers_has_id(b.drop_last(), id) {
        let i = choose|i: int| 0 <= i < b.drop_last().len() && (#[trigger] b.drop_last()[i]).id
            == id;
        assert(b[i].id == id);
    }
    if b.last().id == id {
        assert(b[b.len() - 1].id == id);
    }
}

/// What one covers pass leaves in the covers table under the key `id`: a
/// key the batch names holds the image of its last record, every other key
/// is untouched, and no key disappears.
pub proof fn lemma_covers_after(m: Map<i32, Seq<char>>, b: Seq<CoverV>, id: i32)
    ensures
        covers_after(m, b).contains_key(id) <==> (m.contains_key(id) || covers_has_id(b, id)),
        covers_has_id(b, id) ==> covers_after(m, b)[id] == covers_value(b, id),
        !covers_has_id(b, id) && m.contains_key(id) ==> covers_after(m, b)[id] == m[id],
    decreases b.len(),
{
    if b.len() == 0 {
        if covers_has_id(b, id) {
            let i = choose|i: int| 0 <= i < b.len() && (#[trigger] b[i]).id == id;
        }
    } else {
        lemma_covers_after(m, b.drop_last(), id);
        lemma_covers_has_id_step(b, id);
        let prev = covers_after(m, b.drop_last());
        assert(covers_after(m, b) == upsert_entry(prev, b.last().id, b.last().image_id));
    }
}

proof fn lemma_covers_value_distinct(b: Seq<CoverV>, i: int)
    requires
        covers_distinct(b),
        0 <= i < b.len(),
    ensures
        covers_value(b, b[i].id) == b[i].image_id,
    decreases b.len(),
{
    if i == b.len() - 1 {
    } else {
        assert(b.last().id != b[i].id);
        assert(b.drop_last()[i] == b[i]);
        lemma_covers_value_distinct(b.drop_last(), i);
    }
}

/// A batch every record of which is already stored verbatim does nothing:
/// the table keeps its value and the write log stays empty.
pub proof fn lemma_covers_noop(m: Map<i32, Seq<char>>, b: Seq<CoverV>)
    requires
        forall|i: int|
            0 <= i < b.len() ==> m.contains_key((#[trigger] b[i]).id) && m[b[i].id]
                == b[i].image_id,
    ensures
        covers_after(m, b) == m,
        covers_ops(m, b).len() == 0,
    decreases b.len(),
{
    if b.len() > 0 {
        assert forall|i: int| 0 <= i < b.drop_last().len() implies m.contains_key(
            (#[trigger] b.drop_last()[i]).id,
        ) && m[b.drop_last()[i].id] == b.drop_last()[i].image_id by {
            assert(b.drop_last()[i] == b[i]);
        }
        lemma_covers_noop(m, b.drop_last());
        assert(b[b.len() - 1] == b.last());
    }
}

/// Idempotence: reconciling the same covers batch a second time leaves the
/// table exactly as the first pass left it, and the second pass writes
/// nothing at all.
pub proof fn lemma_covers_idempotent(m: Map<i32, Seq<char>>, b: Seq<CoverV>)
    requires
        covers_distinct(b),
    ensures
        covers_after(covers_after(m, b), b) == covers_after(m, b),
        covers_ops(covers_after(m, b), b).len() == 0,
{
    let m1 = covers_after(m, b);
    assert forall|i: int| 0 <= i < b.len() implies m1.contains_key((#[trigger] b[i]).id)
        && m1[b[i].id] == b[i].image_id by {
        lemma_covers_after(m, b, b[i].id);
        assert(covers_has_id(b, b[i].id));
        lemma_covers_value_distinct(b, i);
    }
    lemma_covers_noop(m1, b);
}

/// Order independence: two covers batches that hold the same records, in
/// any order, leave the same table behind.
pub proof fn lemma_covers_order_independent(
    m: Map<i32, Seq<char>>,
    b1: Seq<CoverV>,
    b2: Seq<CoverV>,
)
    requires
        b1.to_multiset() == b2.to_multiset(),
        covers_distinct(b1),
        covers_distinct(b2),
    ensures
        covers_after(m, b1) == covers_after(m, b2),
{
    broadcast use vstd::seq_lib::group_to_multiset_ensures;

    assert_maps_equal!(covers_after(m, b1), covers_after(m, b2), id => {
        lemma_covers_after(m, b1, id);
        lemma_covers_after(m, b2, id);
        if covers_has_id(b1, id) {
            let i = choose|i: int| 0 <= i < b1.len() && (#[trigger] b1[i]).id == id;
            let c = b1[i];
            assert(0 <= i < b1.len() && b1[i] == c);
            assert(b1.contains(c));
            assert(b1.to_multiset().count(c) > 0);
            assert(b2.contains(c));
            let j = choose|j: int| 0 <= j < b2.len() && b2[j] == c;
            assert(b2[j].id == id);
            assert(covers_has_id(b2, id));
            lemma_covers_value_distinct(b1, i);
            lemma_covers_value_distinct(b2, j);
        }
        if covers_has_id(b2, id) {
            let i = choose|i: int| 0 <= i < b2.len() && (#[trigger] b2[i]).id == id;
            let c = b2[i];
            assert(0 <= i < b2.len() && b2[i] == c);
            assert(b2.contains(c));
            assert(b2.to_multiset().count(c) > 0);
            assert(b1.contains(c));
            let j = choose|j: int| 0 <= j < b1.len() && b1[j] == c;
            assert(b1[j].id == id);
            assert(covers_has_id(b1, id));
        }
    });
}


// ---------------------------------------------------------------- websites

/// No two records of the batch share a primary key.
pub open spec fn websites_distinct(b: Seq<WebsiteV>) -> bool {
    forall|i: int, j: int| 0 <= i < j < b.len() ==> (#[trigger] b[i]).id != (#[trigger] b[j]).id
}

/// Some record of the batch carries the key `id`.
pub open spec fn websites_has_id(b: Seq<WebsiteV>, id: i32) -> bool {
    exists|i: int| 0 <= i < b.len() && (#[trigger] b[i]).id == id
}

/// The url the last record with key `id` carries.
pub open spec fn websites_value(b: Seq<WebsiteV>, id: i32) -> Seq<char>
    decreases b.len(),
{
    if b.len() == 0 {
        seq![]
    } else if b.last().id == id {
        b.last().url
    } else {
        websites_value(b.drop_last(), id)
    }
}

proof fn lemma_websites_has_id_step(b: Seq<WebsiteV>, id: i32)
    requires
        b.len() > 0,
    ensures
        websites_has_id(b, id) <==> (websites_has_id(b.drop_last(), id) || b.last().id == id),
{
    if websites_has_id(b, id) {
        let i = choose|i: int| 0 <= i < b.len() && (#[trigger] b[i]).id == id;
        if i < b.len() - 1 {
            assert(b.drop_last()[i].id == id);
        }
    }
    if websites_has_id(b.drop_last(), id) {
        let i = choose|i: int| 0 <= i < b.drop_last().len() && (#[trigger] b.drop_last()[i]).id
            == id;
        assert(b[i].id == id);
    }
    if b.last().id == id {
        assert(b[b.len() - 1].id == id);
    }
}

/// What one covers pass leaves in the websites table under the key `id`: a
/// key the batch names holds the image of its last record, every other key
/// is untouched, and no key disappears.
pub proof fn lemma_websites_after(m: Map<i32, Seq<char>>, b: Seq<WebsiteV>, id: i32)
    ensures
        websites_after(m, b).contains_key(id) <==> (m.contains_key(id) || websites_has_id(b, id)),
        websites_has_id(b, id) ==> websites_after(m, b)[id] == websites_value(b, id),
        !websites_has_id(b, id) && m.contains_key(id) ==> websites_after(m, b)[id] == m[id],
    decreases b.len(),
{
    if b.len() == 0 {
        if websites_has_id(b, id) {
            let i = choose|i: int| 0 <= i < b.len() && (#[trigger] b[i]).id == id;
        }
    } else {
        lemma_websites_after(m, b.drop_last(), id);
        lemma_websites_has_id_step(b, id);
        let prev = websites_after(m, b.drop_last());
        assert(websites_after(m, b) == upsert_entry(prev, b.last().id, b.last().url));
    }
}

proof fn lemma_websites_value_distinct(b: Seq<WebsiteV>, i: int)
    requires
        websites_distinct(b),
        0 <= i < b.len(),
    ensures
        websites_value(b, b[i].id) == b[i].url,
    decreases b.len(),
{
    if i == b.len() - 1 {
    } else {
        assert(b.last().id != b[i].id);
        assert(b.drop_last()[i] == b[i]);
        lemma_websites_value_distinct(b.drop_last(), i);
    }
}

/// A batch every record of which is already stored verbatim does nothing:
/// the table keeps its value and the write log stays empty.
pub proof fn lemma_websites_noop(m: Map<i32, Seq<char>>, b: Seq<WebsiteV>)
    requires
        forall|i: int|
            0 <= i < b.len() ==> m.contains_key((#[trigger] b[i]).id) && m[b[i].id]
                == b[i].url,
    ensures
        websites_after(m, b) == m,
        websites_ops(m, b).len() == 0,
    decreases b.len(),
{
    if b.len() > 0 {
        assert forall|i: int| 0 <= i < b.drop_last().len() implies m.contains_key(
            (#[trigger] b.drop_last()[i]).id,
        ) && m[b.drop_last()[i].id] == b.drop_last()[i].url by {
            assert(b.drop_last()[i] == b[i]);
        }
        lemma_websites_noop(m, b.drop_last());
        assert(b[b.len() - 1] == b.last());
    }
}

/// Idempotence: reconciling the same websites batch a second time leaves the
/// table exactly as the first pass left it, and the second pass writes
/// nothing at all.
pub proof fn lemma_websites_idempotent(m: Map<i32, Seq<char>>, b: Seq<WebsiteV>)
    requires
        websites_distinct(b),
    ensures
        websites_after(websites_after(m, b), b) == websites_after(m, b),
        websites_ops(websites_after(m, b), b).len() == 0,
{
    let m1 = websites_after(m, b);
    assert forall|i: int| 0 <= i < b.len() implies m1.contains_key((#[trigger] b[i]).id)
        && m1[b[i].id] == b[i].url by {
        lemma_websites_after(m, b, b[i].id);
        assert(websites_has_id(b, b[i].id));
        lemma_websites_value_distinct(b, i);
    }
    lemma_websites_noop(m1, b);
}

/// Order independence: two websites batches that hold the same records, in
/// any order, leave the same table behind.
pub proof fn lemma_websites_order_independent(
    m: Map<i32, Seq<char>>,
    b1: Seq<WebsiteV>,
    b2: Seq<WebsiteV>,
)
    requires
        b1.to_multiset() == b2.to_multiset(),
        websites_distinct(b1),
        websites_distinct(b2),
    ensures
        websites_after(m, b1) == websites_after(m, b2),
{
    broadcast use vstd::seq_lib::group_to_multiset_ensures;

    assert_maps_equal!(websites_after(m, b1), websites_after(m, b2), id => {
        lemma_websites_after(m, b1, id);
        lemma_websites_after(m, b2, id);
        if websites_has_id(b1, id) {
            let i = choose|i: int| 0 <= i < b1.len() && (#[trigger] b1[i]).id == id;
            let c = b1[i];
            assert(0 <= i < b1.len() && b1[i] == c);
            assert(b1.contains(c));
            assert(b1.to_multiset().count(c) > 0);
            assert(b2.contains(c));
            let j = choose|j: int| 0 <= j < b2.len() && b2[j] == c;
            assert(b2[j].id == id);
            assert(websites_has_id(b2, id));
            lemma_websites_value_distinct(b1, i);
            lemma_websites_value_distinct(b2, j);
        }
        if websites_has_id(b2, id) {
            let i = choose|i: int| 0 <= i < b2.len() && (#[trigger] b2[i]).id == id;
            let c = b2[i];
            assert(0 <= i < b2.len() && b2[i] == c);
            assert(b2.contains(c));
            assert(b2.to_multiset().count(c) > 0);
            assert(b1.contains(c));
            let j = choose|j: int| 0 <= j < b1.len() && b1[j] == c;
            assert(b1[j].id == id);
            assert(websites_has_id(b1, id));
        }
    });
}


// ---------------------------------------------------------------- platforms

/// No two records of the batch share a primary key.
pub open spec fn platforms_distinct(b: Seq<PlatformV>) -> bool {
    forall|i: int, j: int| 0 <= i < j < b.len() ==> (#[trigger] b[i]).id != (#[trigger] b[j]).id
}

/// Some record of the batch carries the key `id`.
pub open spec fn platforms_has_id(b: Seq<PlatformV>, id: i32) -> bool {
    exists|i: int| 0 <= i < b.len() && (#[trigger] b[i]).id == id
}

/// The row the last record with key `id` yields.
pub open spec fn platforms_value(b: Seq<PlatformV>, id: i32) -> PlatformRowV
    decreases b.len(),
{
    if b.len() == 0 {
        PlatformRowV { name: seq![], category: None }
    } else if b.last().id == id {
        platform_row_of(b.last())
    } else {
        platforms_value(b.drop_last(), id)
    }
}

proof fn lemma_platforms_has_id_step(b: Seq<PlatformV>, id: i32)
    requires
        b.len() > 0,
    ensures
        platforms_has_id(b, id) <==> (platforms_has_id(b.drop_last(), id) || b.last().id == id),
{
    if platforms_has_id(b, id) {
        let i = choose|i: int| 0 <= i < b.len() && (#[trigger] b[i]).id == id;
        if i < b.len() - 1 {
            assert(b.drop_last()[i].id == id);
        }
    }
    if platforms_has_id(b.drop_last(), id) {
        let i = choose|i: int| 0 <= i < b.drop_last().len() && (#[trigger] b.drop_last()[i]).id
            == id;
        assert(b[i].id == id);
    }
    if b.last().id == id {
        assert(b[b.len() - 1].id == id);
    }
}

/// What one covers pass leaves in the platforms table under the key `id`: a
/// key the batch names holds the image of its last record, every other key
/// is untouched, and no key disappears.
pub proof fn lemma_platforms_after(m: Map<i32, PlatformRowV>, b: Seq<PlatformV>, id: i32)
    ensures
        platforms_after(m, b).contains_key(id) <==> (m.contains_key(id) || platforms_has_id(b, id)),
        platforms_has_id(b, id) ==> platforms_after(m, b)[id] == platforms_value(b, id),
        !platforms_has_id(b, id) && m.contains_key(id) ==> platforms_after(m, b)[id] == m[id],
    decreases b.len(),
{
    if b.len() == 0 {
        if platforms_has_id(b, id) {
            let i = choose|i: int| 0 <= i < b.len() && (#[trigger] b[i]).id == id;
        }
    } else {
        lemma_platforms_after(m, b.drop_last(), id);
        lemma_platforms_has_id_step(b, id);
        let prev = platforms_after(m, b.drop_last());
        assert(platforms_after(m, b) == upsert_entry(prev, b.last().id, platform_row_of(b.last())));
    }
}

proof fn lemma_platforms_value_distinct(b: Seq<PlatformV>, i: int)
    requires
        platforms_distinct(b),
        0 <= i < b.len(),
    ensures
        platforms_value(b, b[i].id) == platform_row_of(b[i]),
    decreases b.len(),
{
    if i == b.len() - 1 {
    } else {
        assert(b.last().id != b[i].id);
        assert(b.drop_last()[i] == b[i]);
        lemma_platforms_value_distinct(b.drop_last(), i);
    }
}

/// A batch every record of which is already stored verbatim does nothing:
/// the table keeps its value and the write log stays empty.
pub proof fn lemma_platforms_noop(m: Map<i32, PlatformRowV>, b: Seq<PlatformV>)
    requires
        forall|i: int|
            0 <= i < b.len() ==> m.contains_key((#[trigger] b[i]).id) && m[b[i].id]
                == platform_row_of(b[i]),
    ensures
        platforms_after(m, b) == m,
        platforms_ops(m, b).len() == 0,
    decreases b.len(),
{
    if b.len() > 0 {
        assert forall|i: int| 0 <= i < b.drop_last().len() implies m.contains_key(
            (#[trigger] b.drop_last()[i]).id,
        ) && m[b.drop_last()[i].id] == platform_row_of(b.drop_last()[i]) by {
            assert(b.drop_last()[i] == b[i]);
        }
        lemma_platforms_noop(m, b.drop_last());
        assert(b[b.len() - 1] == b.last());
    }
}

/// Idempotence: reconciling the same platforms batch a second time leaves the
/// table exactly as the first pass left it, and the second pass writes
/// nothing at all.
pub proof fn lemma_platforms_idempotent(m: Map<i32, PlatformRowV>, b: Seq<PlatformV>)
    requires
        platforms_distinct(b),
    ensures
        platforms_after(platforms_after(m, b), b) == platforms_after(m, b),
        platforms_ops(platforms_after(m, b), b).len() == 0,
{
    let m1 = platforms_after(m, b);
    assert forall|i: int| 0 <= i < b.len() implies m1.contains_key((#[trigger] b[i]).id)
        && m1[b[i].id] == platform_row_of(b[i]) by {
        lemma_platforms_after(m, b, b[i].id);
        assert(platforms_has_id(b, b[i].id));
        lemma_platforms_value_distinct(b, i);
    }
    lemma_platforms_noop(m1, b);
}

/// Order independence: two platforms batches that hold the same records, in
/// any order, leave the same table behind.
pub proof fn lemma_platforms_order_independent(
    m: Map<i32, PlatformRowV>,
    b1: Seq<PlatformV>,
    b2: Seq<PlatformV>,
)
    requires
        b1.to_multiset() == b2.to_multiset(),
        platforms_distinct(b1),
        platforms_distinct(b2),
    ensures
        platforms_after(m, b1) == platforms_after(m, b2),
{
    broadcast use vstd::seq_lib::group_to_multiset_ensures;

    assert_maps_equal!(platforms_after(m, b1), platforms_after(m, b2), id => {
        lemma_platforms_after(m, b1, id);
        lemma_platforms_after(m, b2, id);
        if platforms_has_id(b1, id) {
            let i = choose|i: int| 0 <= i < b1.len() && (#[trigger] b1[i]).id == id;
            let c = b1[i];
            assert(0 <= i < b1.len() && b1[i] == c);
            assert(b1.contains(c));
            assert(b1.to_multiset().count(c) > 0);
            assert(b2.contains(c));
            let j = choose|j: int| 0 <= j < b2.len() && b2[j] == c;
            assert(b2[j].id == id);
            assert(platforms_has_id(b2, id));
            lemma_platforms_value_distinct(b1, i);
            lemma_platforms_value_distinct(b2, j);
        }
        if platforms_has_id(b2, id) {
            let i = choose|i: int| 0 <= i < b2.len() && (#[trigger] b2[i]).id == id;
            let c = b2[i];
            assert(0 <= i < b2.len() && b2[i] == c);
            assert(b2.contains(c));
            assert(b2.to_multiset().count(c) > 0);
            assert(b1.contains(c));
            let j = choose|j: int| 0 <= j < b1.len() && b1[j] == c;
            assert(b1[j].id == id);
            assert(platforms_has_id(b1, id));
        }
    });
}


// ---------------------------------------------------------------- popularity

/// No two records of the batch share a primary key.
pub open spec fn pops_distinct(b: Seq<PopularityPrimitiveV>) -> bool {
    forall|i: int, j: int| 0 <= i < j < b.len() ==> (#[trigger] b[i]).id != (#[trigger] b[j]).id
}

/// Some record of the batch carries the key `id` and names a stored game.
/// Records whose game is unknown are discarded, so only these take effect.
pub open spec fn pops_has_id(g: Map<i32, GameRowV>, b: Seq<PopularityPrimitiveV>, id: i32) -> bool {
    exists|i: int|
        0 <= i < b.len() && (#[trigger] b[i]).id == id && g.contains_key(b[i].game_id)
}

/// The row the last effective record with key `id` yields.
pub open spec fn pops_value(
    g: Map<i32, GameRowV>,
    b: Seq<PopularityPrimitiveV>,
    id: i32,
) -> PopularityRowV
    decreases b.len(),
{
    if b.len() == 0 {
        PopularityRowV { game_id: 0, popularity_type: 0, value: 0 }
    } else if b.last().id == id && g.contains_key(b.last().game_id) {
        popularity_row_of(b.last())
    } else {
        pops_value(g, b.drop_last(), id)
    }
}

proof fn lemma_pops_has_id_step(g: Map<i32, GameRowV>, b: Seq<PopularityPrimitiveV>, id: i32)
    requires
        b.len() > 0,
    ensures
        pops_has_id(g, b, id) <==> (pops_has_id(g, b.drop_last(), id) || (b.last().id == id
            && g.contains_key(b.last().game_id))),
{
    if pops_has_id(g, b, id) {
        let i = choose|i: int|
            0 <= i < b.len() && (#[trigger] b[i]).id == id && g.contains_key(b[i].game_id);
        if i < b.len() - 1 {
            assert(b.drop_last()[i].id == id && g.contains_key(b.drop_last()[i].game_id));
        }
    }
    if pops_has_id(g, b.drop_last(), id) {
        let i = choose|i: int|
            0 <= i < b.drop_last().len() && (#[trigger] b.drop_last()[i]).id == id
                && g.contains_key(b.drop_last()[i].game_id);
        assert(b[i].id == id && g.contains_key(b[i].game_id));
    }
    if b.last().id == id && g.contains_key(b.last().game_id) {
        assert(b[b.len() - 1].id == id && g.contains_key(b[b.len() - 1].game_id));
    }
}

/// What one popularity pass does, key by key: only the popularity table
/// moves; a key that some effective record carries holds the row of the
/// last such record; a record whose game is unknown changes nothing.
pub proof fn lemma_pops_after(s: StoreV, b: Seq<PopularityPrimitiveV>, id: i32)
    ensures
        pops_after(s, b) == (StoreV { popularity: pops_after(s, b).popularity, ..s }),
        pops_after(s, b).popularity.contains_key(id) <==> (s.popularity.contains_key(id)
            || pops_has_id(s.games, b, id)),
        pops_has_id(s.games, b, id) ==> pops_after(s, b).popularity[id] == pops_value(
            s.games,
            b,
            id,
        ),
        !pops_has_id(s.games, b, id) && s.popularity.contains_key(id) ==> pops_after(
            s,
            b,
        ).popularity[id] == s.popularity[id],
    decreases b.len(),
{
    if b.len() == 0 {
        if pops_has_id(s.games, b, id) {
            let i = choose|i: int|
                0 <= i < b.len() && (#[trigger] b[i]).id == id && s.games.contains_key(
                    b[i].game_id,
                );
        }
        assert(pops_after(s, b) =~= (StoreV { popularity: pops_after(s, b).popularity, ..s }));
    } else {
        lemma_pops_after(s, b.drop_last(), id);
        lemma_pops_has_id_step(s.games, b, id);
        let prev = pops_after(s, b.drop_last());
        assert(prev.games == s.games);
        assert(pops_after(s, b) == popularity_applied(prev, b.last()));
        assert(pops_after(s, b) =~= (StoreV { popularity: pops_after(s, b).popularity, ..s }));
    }
}

proof fn lemma_pops_value_distinct(g: Map<i32, GameRowV>, b: Seq<PopularityPrimitiveV>, i: int)
    requires
        pops_distinct(b),
        0 <= i < b.len(),
        g.contains_key(b[i].game_id),
    ensures
        pops_value(g, b, b[i].id) == popularity_row_of(b[i]),
    decreases b.len(),
{
    if i == b.len() - 1 {
    } else {
        assert(b.last().id != b[i].id);
        assert(b.drop_last()[i] == b[i]);
        lemma_pops_value_distinct(g, b.drop_last(), i);
    }
}

/// A batch all of whose effective records are already stored verbatim does
/// nothing: the store keeps its value and the write log stays empty.
pub proof fn lemma_pops_noop(s: StoreV, b: Seq<PopularityPrimitiveV>)
    requires
        forall|i: int|
            0 <= i < b.len() && s.games.contains_key((#[trigger] b[i]).game_id)
                ==> s.popularity.contains_key(b[i].id) && s.popularity[b[i].id]
                == popularity_row_of(b[i]),
    ensures
        pops_after(s, b) == s,
        pops_ops(s, b).len() == 0,
    decreases b.len(),
{
    if b.len() > 0 {
        assert forall|i: int|
            0 <= i < b.drop_last().len() && s.games.contains_key(
                (#[trigger] b.drop_last()[i]).game_id,
            ) implies s.popularity.contains_key(b.drop_last()[i].id) && s.popularity[b.drop_last()[i].id]
            == popularity_row_of(b.drop_last()[i]) by {
            assert(b.drop_last()[i] == b[i]);
        }
        lemma_pops_noop(s, b.drop_last());
        assert(b[b.len() - 1] == b.last());
        assert(popularity_applied(s, b.last()) =~= s);
    }
}

/// Idempotence: reconciling the same popularity batch a second time leaves
/// the store exactly as the first pass left it, and writes nothing.
pub proof fn lemma_pops_idempotent(s: StoreV, b: Seq<PopularityPrimitiveV>)
    requires
        pops_distinct(b),
    ensures
        pops_after(pops_after(s, b), b) == pops_after(s, b),
        pops_ops(pops_after(s, b), b).len() == 0,
{
    let s1 = pops_after(s, b);
    assert forall|i: int|
        0 <= i < b.len() && s1.games.contains_key((#[trigger] b[i]).game_id) implies
        s1.popularity.contains_key(b[i].id) && s1.popularity[b[i].id] == popularity_row_of(
        b[i],
    ) by {
        lemma_pops_after(s, b, b[i].id);
        assert(s1.games == s.games);
        assert(pops_has_id(s.games, b, b[i].id));
        lemma_pops_value_distinct(s.games, b, i);
    }
    lemma_pops_noop(s1, b);
}

/// Order independence: two popularity batches that hold the same records,
/// in any order, leave the same store behind.
pub proof fn lemma_pops_order_independent(
    s: StoreV,
    b1: Seq<PopularityPrimitiveV>,
    b2: Seq<PopularityPrimitiveV>,
)
    requires
        b1.to_multiset() == b2.to_multiset(),
        pops_distinct(b1),
        pops_distinct(b2),
    ensures
        pops_after(s, b1) == pops_after(s, b2),
{
    broadcast use vstd::seq_lib::group_to_multiset_ensures;

    let g = s.games;
    assert_maps_equal!(pops_after(s, b1).popularity, pops_after(s, b2).popularity, id => {
        lemma_pops_after(s, b1, id);
        lemma_pops_after(s, b2, id);
        if pops_has_id(g, b1, id) {
            let i = choose|i: int|
                0 <= i < b1.len() && (#[trigger] b1[i]).id == id && g.contains_key(b1[i].game_id);
            let c = b1[i];
            assert(0 <= i < b1.len() && b1[i] == c);
            assert(b1.contains(c));
            assert(b1.to_multiset().count(c) > 0);
            assert(b2.contains(c));
            let j = choose|j: int| 0 <= j < b2.len() && b2[j] == c;
            assert(b2[j].id == id && g.contains_key(b2[j].game_id));
            assert(pops_has_id(g, b2, id));
            lemma_pops_value_distinct(g, b1, i);
            lemma_pops_value_distinct(g, b2, j);
        }
        if pops_has_id(g, b2, id) {
            let i = choose|i: int|
                0 <= i < b2.len() && (#[trigger] b2[i]).id == id && g.contains_key(b2[i].game_id);
            let c = b2[i];
            assert(0 <= i < b2.len() && b2[i] == c);
            assert(b2.contains(c));
            assert(b2.to_multiset().count(c) > 0);
            assert(b1.contains(c));
            let j = choose|j: int| 0 <= j < b1.len() && b1[j] == c;
            assert(b1[j].id == id && g.contains_key(b1[j].game_id));
            assert(pops_has_id(g, b1, id));
        }
    });
    lemma_pops_after(s, b1, 0);
    lemma_pops_after(s, b2, 0);
    assert(pops_after(s, b1) =~= pops_after(s, b2));
}

/// Dangling reference skip: a popularity record whose `game_id` names no
/// stored game is dropped on its own; the key it carries is untouched, and
/// the rest of the batch still goes through.
pub proof fn lemma_dangling_popularity_skipped(s: StoreV, b: Seq<PopularityPrimitiveV>, i: int)
    requires
        pops_distinct(b),
        0 <= i < b.len(),
        !s.games.contains_key(b[i].game_id),
    ensures
        pops_after(s, b).popularity.contains_key(b[i].id) == s.popularity.contains_key(b[i].id),
        s.popularity.contains_key(b[i].id) ==> pops_after(s, b).popularity[b[i].id]
            == s.popularity[b[i].id],
{
    let id = b[i].id;
    lemma_pops_after(s, b, id);
    if pops_has_id(s.games, b, id) {
        let j = choose|j: int|
            0 <= j < b.len() && (#[trigger] b[j]).id == id && s.games.contains_key(b[j].game_id);
        assert(j == i);
    }
}

// ---------------------------------------------------------------- games

/// No two records of the batch share a primary key.
pub open spec fn games_distinct(b: Seq<GameV>) -> bool {
    forall|i: int, j: int| 0 <= i < j < b.len() ==> (#[trigger] b[i]).id != (#[trigger] b[j]).id
}

/// Some record of the batch carries the key `id`.
pub open spec fn games_has_id(b: Seq<GameV>, id: i32) -> bool {
    exists|i: int| 0 <= i < b.len() && (#[trigger] b[i]).id == id
}

/// The last record of the batch with key `id`.
pub open spec fn games_record(b: Seq<GameV>, id: i32) -> GameV
    decreases b.len(),
{
    if b.len() == 0 {
        GameV {
            id: 0,
            name: seq![],
            cover_id: None,
            website_ids: None,
            similar_games: None,
            category: 0,
            version_parent: None,
            total_rating: None,
            platform_ids: None,
        }
    } else if b.last().id == id {
        b.last()
    } else {
        games_record(b.drop_last(), id)
    }
}

/// The edge table `m1` agrees with `m0` under the key `id`.
pub open spec fn unchanged_at(m0: Map<i32, Seq<i32>>, m1: Map<i32, Seq<i32>>, id: i32) -> bool {
    m1.contains_key(id) == m0.contains_key(id) && (m0.contains_key(id) ==> m1[id] == m0[id])
}

/// What the first games pass does to the website edges of the game `id`,
/// given the record `g` that carries that key: an absent list keeps the
/// stored edges, a list that matches them writes nothing, any other list
/// replaces them with its known ids.
pub open spec fn websites_edge_outcome(s: StoreV, t: StoreV, g: GameV, id: i32) -> bool {
    match g.website_ids {
        None => unchanged_at(s.game_websites, t.game_websites, id),
        Some(ws) => {
            let eff = present_website_ids(s.websites, ws);
            if edge_seq(s.game_websites, id) == eff {
                unchanged_at(s.game_websites, t.game_websites, id)
            } else {
                t.game_websites.contains_key(id) && t.game_websites[id] == eff
            }
        },
    }
}

pub open spec fn platforms_edge_outcome(s: StoreV, t: StoreV, g: GameV, id: i32) -> bool {
    match g.platform_ids {
        None => unchanged_at(s.game_platforms, t.game_platforms, id),
        Some(ps) => {
            let eff = present_platform_ids(s.platforms, ps);
            if edge_seq(s.game_platforms, id) == eff {
                unchanged_at(s.game_platforms, t.game_platforms, id)
            } else {
                t.game_platforms.contains_key(id) && t.game_platforms[id] == eff
            }
        },
    }
}

/// What the second games pass does to the similar-game edges of the game
/// `id`: candidates are kept only where a game row exists once the whole
/// batch is in.
pub open spec fn similar_edge_outcome(s: StoreV, t: StoreV, g: GameV, id: i32) -> bool {
    match g.similar_games {
        None => unchanged_at(s.similar_games, t.similar_games, id),
        Some(sg) => {
            let eff = present_game_ids(s.games, sg);
            if edge_seq(s.similar_games, id) == eff {
                unchanged_at(s.similar_games, t.similar_games, id)
            } else {
                t.similar_games.contains_key(id) && t.similar_games[id] == eff
            }
        },
    }
}

proof fn lemma_games_has_id_step(b: Seq<GameV>, id: i32)
    requires
        b.len() > 0,
    ensures
        games_has_id(b, id) <==> (games_has_id(b.drop_last(), id) || b.last().id == id),
{
    if games_has_id(b, id) {
        let i = choose|i: int| 0 <= i < b.len() && (#[trigger] b[i]).id == id;
        if i < b.len() - 1 {
            assert(b.drop_last()[i].id == id);
        }
    }
    if games_has_id(b.drop_last(), id) {
        let i = choose|i: int| 0 <= i < b.drop_last().len() && (#[trigger] b.drop_last()[i]).id
            == id;
        assert(b[i].id == id);
    }
    if b.last().id == id {
        assert(b[b.len() - 1].id == id);
    }
}

proof fn lemma_games_last_fresh(b: Seq<GameV>)
    requires
        games_distinct(b),
        b.len() > 0,
    ensures
        !games_has_id(b.drop_last(), b.last().id),
{
    if games_has_id(b.drop_last(), b.last().id) {
        let i = choose|i: int|
            0 <= i < b.drop_last().len() && (#[trigger] b.drop_last()[i]).id == b.last().id;
        assert(b[i].id == b[b.len() - 1].id);
    }
}

proof fn lemma_games_record_distinct(b: Seq<GameV>, i: int)
    requires
        games_distinct(b),
        0 <= i < b.len(),
    ensures
        games_record(b, b[i].id) == b[i],
    decreases b.len(),
{
    if i == b.len() - 1 {
    } else {
        assert(b.last().id != b[i].id);
        assert(b.drop_last()[i] == b[i]);
        lemma_games_record_distinct(b.drop_last(), i);
    }
}

/// What the first games pass leaves behind, key by key: only the games
/// rows and the website and platform edge tables move; the row under a key
/// the batch names is the one its record yields against the covers on
/// hand; edges follow the record's lists; every other key is untouched.
pub proof fn lemma_games_phase1(s: StoreV, b: Seq<GameV>, id: i32)
    requires
        games_distinct(b),
    ensures
        games_phase1(s, b) == (StoreV {
            games: games_phase1(s, b).games,
            game_websites: games_phase1(s, b).game_websites,
            game_platforms: games_phase1(s, b).game_platforms,
            ..s
        }),
        games_phase1(s, b).games.contains_key(id) <==> (s.games.contains_key(id) || games_has_id(
            b,
            id,
        )),
        games_has_id(b, id) ==> games_phase1(s, b).games[id] == game_row_of(
            s.covers,
            games_record(b, id),
        ),
        !games_has_id(b, id) && s.games.contains_key(id) ==> games_phase1(s, b).games[id]
            == s.games[id],
        games_has_id(b, id) ==> websites_edge_outcome(s, games_phase1(s, b), games_record(b, id), id),
        !games_has_id(b, id) ==> unchanged_at(s.game_websites, games_phase1(s, b).game_websites, id),
        games_has_id(b, id) ==> platforms_edge_outcome(
            s,
            games_phase1(s, b),
            games_record(b, id),
            id,
        ),
        !games_has_id(b, id) ==> unchanged_at(
            s.game_platforms,
            games_phase1(s, b).game_platforms,
            id,
        ),
    decreases b.len(),
{
    if b.len() == 0 {
        if games_has_id(b, id) {
            let i = choose|i: int| 0 <= i < b.len() && (#[trigger] b[i]).id == id;
        }
        assert(games_phase1(s, b) =~= (StoreV {
            games: games_phase1(s, b).games,
            game_websites: games_phase1(s, b).game_websites,
            game_platforms: games_phase1(s, b).game_platforms,
            ..s
        }));
    } else {
        let bd = b.drop_last();
        let g = b.last();
        assert forall|i: int, j: int| 0 <= i < j < bd.len() implies (#[trigger] bd[i]).id != (
        #[trigger] bd[j]).id by {
            assert(bd[i] == b[i] && bd[j] == b[j]);
        }
        lemma_games_phase1(s, bd, id);
        lemma_games_phase1(s, bd, g.id);
        lemma_games_has_id_step(b, id);
        lemma_games_last_fresh(b);
        let prev = games_phase1(s, bd);
        let t = games_phase1(s, b);
        assert(t == phase1_game(prev, g));
        let t1 = game_row_applied(prev, g);
        let t2 = game_websites_applied(t1, g);
        assert(t == game_platforms_applied(t2, g));
        assert(prev.covers == s.covers && prev.websites == s.websites && prev.platforms
            == s.platforms);
        assert(t =~= (StoreV {
            games: t.games,
            game_websites: t.game_websites,
            game_platforms: t.game_platforms,
            ..s
        }));
        if id == g.id {
            assert(games_record(b, id) == g);
            assert(edge_seq(prev.game_websites, id) == edge_seq(s.game_websites, id));
            assert(edge_seq(prev.game_platforms, id) == edge_seq(s.game_platforms, id));
        } else {
            assert(games_record(b, id) == games_record(bd, id));
        }
    }
}

/// What the second games pass leaves behind, key by key: only the
/// similar-game edge table moves, and only under keys the batch names.
pub proof fn lemma_games_phase2(s: StoreV, b: Seq<GameV>, id: i32)
    requires
        games_distinct(b),
    ensures
        games_phase2(s, b) == (StoreV { similar_games: games_phase2(s, b).similar_games, ..s }),
        games_has_id(b, id) ==> similar_edge_outcome(s, games_phase2(s, b), games_record(b, id), id),
        !games_has_id(b, id) ==> unchanged_at(s.similar_games, games_phase2(s, b).similar_games, id),
    decreases b.len(),
{
    if b.len() == 0 {
        if games_has_id(b, id) {
            let i = choose|i: int| 0 <= i < b.len() && (#[trigger] b[i]).id == id;
        }
        assert(games_phase2(s, b) =~= (StoreV {
            similar_games: games_phase2(s, b).similar_games,
            ..s
        }));
    } else {
        let bd = b.drop_last();
        let g = b.last();
        assert forall|i: int, j: int| 0 <= i < j < bd.len() implies (#[trigger] bd[i]).id != (
        #[trigger] bd[j]).id by {
            assert(bd[i] == b[i] && bd[j] == b[j]);
        }
        lemma_games_phase2(s, bd, id);
        lemma_games_phase2(s, bd, g.id);
        lemma_games_has_id_step(b, id);
        lemma_games_last_fresh(b);
        let prev = games_phase2(s, bd);
        let t = games_phase2(s, b);
        assert(t == phase2_game(prev, g));
        assert(prev.games == s.games);
        assert(t =~= (StoreV { similar_games: t.similar_games, ..s }));
        if id == g.id {
            assert(games_record(b, id) == g);
            assert(edge_seq(prev.similar_games, id) == edge_seq(s.similar_games, id));
        } else {
            assert(games_record(b, id) == games_record(bd, id));
        }
    }
}

/// The store already reflects the record `g`: its row is stored against
/// the covers on hand, and every edge list it carries matches the stored
/// edges.
pub open spec fn game_settled(s: StoreV, g: GameV) -> bool {
    &&& s.games.contains_key(g.id) && s.games[g.id] == game_row_of(s.covers, g)
    &&& match g.website_ids {
        None => true,
        Some(ws) => edge_seq(s.game_websites, g.id) == present_website_ids(s.websites, ws),
    }
    &&& match g.platform_ids {
        None => true,
        Some(ps) => edge_seq(s.game_platforms, g.id) == present_platform_ids(s.platforms, ps),
    }
    &&& match g.similar_games {
        None => true,
        Some(sg) => edge_seq(s.similar_games, g.id) == present_game_ids(s.games, sg),
    }
}

proof fn lemma_games_phase1_noop(s: StoreV, b: Seq<GameV>)
    requires
        forall|i: int| 0 <= i < b.len() ==> game_settled(s, #[trigger] b[i]),
    ensures
        games_phase1(s, b) == s,
        games_phase1_ops(s, b).len() == 0,
    decreases b.len(),
{
    if b.len() > 0 {
        assert forall|i: int| 0 <= i < b.drop_last().len() implies game_settled(
            s,
            #[trigger] b.drop_last()[i],
        ) by {
            assert(b.drop_last()[i] == b[i]);
        }
        lemma_games_phase1_noop(s, b.drop_last());
        let g = b.last();
        assert(game_settled(s, b[b.len() - 1]));
        assert(game_row_applied(s, g) =~= s);
        assert(game_websites_applied(s, g) =~= s);
        assert(game_platforms_applied(s, g) =~= s);
        assert(phase1_game(s, g) == s);
    }
}

proof fn lemma_games_phase2_noop(s: StoreV, b: Seq<GameV>)
    requires
        forall|i: int| 0 <= i < b.len() ==> game_settled(s, #[trigger] b[i]),
    ensures
        games_phase2(s, b) == s,
        games_phase2_ops(s, b).len() == 0,
    decreases b.len(),
{
    if b.len() > 0 {
        assert forall|i: int| 0 <= i < b.drop_last().len() implies game_settled(
            s,
            #[trigger] b.drop_last()[i],
        ) by {
            assert(b.drop_last()[i] == b[i]);
        }
        lemma_games_phase2_noop(s, b.drop_last());
        let g = b.last();
        assert(game_settled(s, b[b.len() - 1]));
        assert(phase2_game(s, g) =~= s);
    }
}

/// A games batch every record of which the store already reflects does
/// nothing: both passes keep the store and write nothing.
pub proof fn lemma_games_noop(s: StoreV, b: Seq<GameV>)
    requires
        forall|i: int| 0 <= i < b.len() ==> game_settled(s, #[trigger] b[i]),
    ensures
        games_after(s, b) == s,
        games_ops(s, b).len() == 0,
{
    lemma_games_phase1_noop(s, b);
    lemma_games_phase2_noop(s, b);
}

/// After one games pass the store reflects every record of the batch.
pub proof fn lemma_games_settled_after(s: StoreV, b: Seq<GameV>)
    requires
        games_distinct(b),
    ensures
        forall|i: int| 0 <= i < b.len() ==> game_settled(games_after(s, b), #[trigger] b[i]),
{
    let p1 = games_phase1(s, b);
    let m1 = games_after(s, b);
    assert forall|i: int| 0 <= i < b.len() implies game_settled(m1, #[trigger] b[i]) by {
        let g = b[i];
        assert(games_has_id(b, g.id));
        lemma_games_record_distinct(b, i);
        lemma_games_phase1(s, b, g.id);
        lemma_games_phase2(p1, b, g.id);
        assert(m1.games == p1.games && m1.covers == s.covers && m1.websites == s.websites
            && m1.platforms == s.platforms);
        assert(m1.game_websites == p1.game_websites && m1.game_platforms == p1.game_platforms);
        assert(p1.games[g.id] == game_row_of(s.covers, g));
        match g.website_ids {
            None => {},
            Some(ws) => {
                assert(websites_edge_outcome(s, p1, g, g.id));
                assert(edge_seq(p1.game_websites, g.id) == present_website_ids(s.websites, ws));
            },
        }
        match g.platform_ids {
            None => {},
            Some(ps) => {
                assert(platforms_edge_outcome(s, p1, g, g.id));
                assert(edge_seq(p1.game_platforms, g.id) == present_platform_ids(s.platforms, ps));
            },
        }
        match g.similar_games {
            None => {},
            Some(sg) => {
                assert(similar_edge_outcome(p1, m1, g, g.id));
                assert(edge_seq(m1.similar_games, g.id) == present_game_ids(p1.games, sg));
            },
        }
    }
}

/// Idempotence: reconciling the same games batch a second time leaves the
/// store exactly as the first pass left it, and writes nothing.
pub proof fn lemma_games_idempotent(s: StoreV, b: Seq<GameV>)
    requires
        games_distinct(b),
    ensures
        games_after(games_after(s, b), b) == games_after(s, b),
        games_ops(games_after(s, b), b).len() == 0,
{
    lemma_games_settled_after(s, b);
    lemma_games_noop(games_after(s, b), b);
}

/// Order independence: two games batches that hold the same records, in
/// any order, leave the same store behind.
pub proof fn lemma_games_order_independent(s: StoreV, b1: Seq<GameV>, b2: Seq<GameV>)
    requires
        b1.to_multiset() == b2.to_multiset(),
        games_distinct(b1),
        games_distinct(b2),
    ensures
        games_after(s, b1) == games_after(s, b2),
{
    broadcast use vstd::seq_lib::group_to_multiset_ensures;

    assert forall|id: i32| #![auto] games_has_id(b1, id) implies games_has_id(b2, id)
        && games_record(b1, id) == games_record(b2, id) by {
        let i = choose|i: int| 0 <= i < b1.len() && (#[trigger] b1[i]).id == id;
        let c = b1[i];
        assert(0 <= i < b1.len() && b1[i] == c);
        assert(b1.contains(c));
        assert(b1.to_multiset().count(c) > 0);
        assert(b2.contains(c));
        let j = choose|j: int| 0 <= j < b2.len() && b2[j] == c;
        assert(b2[j].id == id);
        assert(games_has_id(b2, id));
        lemma_games_record_distinct(b1, i);
        lemma_games_record_distinct(b2, j);
    }
    assert forall|id: i32| #![auto] games_has_id(b2, id) implies games_has_id(b1, id) by {
        let i = choose|i: int| 0 <= i < b2.len() && (#[trigger] b2[i]).id == id;
        let c = b2[i];
        assert(0 <= i < b2.len() && b2[i] == c);
        assert(b2.contains(c));
        assert(b2.to_multiset().count(c) > 0);
        assert(b1.contains(c));
        let j = choose|j: int| 0 <= j < b1.len() && b1[j] == c;
        assert(b1[j].id == id);
        assert(games_has_id(b1, id));
    }
    let p1 = games_phase1(s, b1);
    let p2 = games_phase1(s, b2);
    assert_maps_equal!(p1.games, p2.games, id => {
        lemma_games_phase1(s, b1, id);
        lemma_games_phase1(s, b2, id);
    });
    assert_maps_equal!(p1.game_websites, p2.game_websites, id => {
        lemma_games_phase1(s, b1, id);
        lemma_games_phase1(s, b2, id);
    });
    assert_maps_equal!(p1.game_platforms, p2.game_platforms, id => {
        lemma_games_phase1(s, b1, id);
        lemma_games_phase1(s, b2, id);
    });
    lemma_games_phase1(s, b1, 0);
    lemma_games_phase1(s, b2, 0);
    assert(p1 =~= p2);
    let t1 = games_phase2(p1, b1);
    let t2 = games_phase2(p1, b2);
    assert(games_phase2(p2, b2) == t2);
    assert_maps_equal!(t1.similar_games, t2.similar_games, id => {
        lemma_games_phase2(p1, b1, id);
        lemma_games_phase2(p1, b2, id);
    });
    lemma_games_phase2(p1, b1, 0);
    lemma_games_phase2(p1, b2, 0);
    assert(t1 =~= t2);
}

proof fn lemma_present_games_keeps(g: Map<i32, GameRowV>, ids: Seq<i32>, k: int)
    requires
        0 <= k < ids.len(),
        g.contains_key(ids[k]),
    ensures
        present_game_ids(g, ids).contains(ids[k]),
    decreases ids.len(),
{
    reveal(Seq::filter);
    if k == ids.len() - 1 {
        let out = present_game_ids(g, ids);
        assert(out.last() == ids[k]);
        assert(out.contains(ids[k]));
    } else {
        lemma_present_games_keeps(g, ids.drop_last(), k);
        let sub = present_game_ids(g, ids.drop_last());
        let n = choose|n: int| 0 <= n < sub.len() && sub[n] == ids.drop_last()[k];
        let out = present_game_ids(g, ids);
        assert(ids.drop_last()[k] == ids[k]);
        assert(out[n] == ids[k]);
        assert(out.contains(ids[k]));
    }
}

/// Forward-reference resolution: a batch that holds game `A` naming game
/// `B` among its similar games, and game `B` itself, anywhere in the
/// batch, leaves the edge from `A` to `B` stored after the pass.
pub proof fn lemma_forward_reference(s: StoreV, b: Seq<GameV>, i: int, j: int)
    requires
        games_distinct(b),
        0 <= i < b.len(),
        0 <= j < b.len(),
        b[i].similar_games is Some,
        b[i].similar_games.unwrap().contains(b[j].id),
    ensures
        edge_seq(games_after(s, b).similar_games, b[i].id).contains(b[j].id),
{
    let p1 = games_phase1(s, b);
    let m1 = games_after(s, b);
    let g = b[i];
    let sg = g.similar_games.unwrap();
    assert(games_has_id(b, g.id));
    assert(games_has_id(b, b[j].id));
    lemma_games_record_distinct(b, i);
    lemma_games_phase1(s, b, b[j].id);
    assert(p1.games.contains_key(b[j].id));
    let k = choose|k: int| 0 <= k < sg.len() && sg[k] == b[j].id;
    lemma_present_games_keeps(p1.games, sg, k);
    let eff = present_game_ids(p1.games, sg);
    assert(eff.contains(b[j].id));
    lemma_games_phase2(p1, b, g.id);
    assert(similar_edge_outcome(p1, m1, g, g.id));
    if edge_seq(p1.similar_games, g.id) == eff {
        assert(edge_seq(m1.similar_games, g.id) == eff);
    } else {
        assert(m1.similar_games[g.id] == eff);
        assert(edge_seq(m1.similar_games, g.id) == eff);
    }
}

/// Dangling reference skip: a game record naming a cover the store does
/// not hold is stored all the same, with a null cover reference.
pub proof fn lemma_dangling_cover_stored_null(s: StoreV, b: Seq<GameV>, i: int)
    requires
        games_distinct(b),
        0 <= i < b.len(),
        b[i].cover_id is Some,
        !s.covers.contains_key(b[i].cover_id.unwrap()),
    ensures
        games_after(s, b).games.contains_key(b[i].id),
        games_after(s, b).games[b[i].id].cover_id is None,
{
    let p1 = games_phase1(s, b);
    assert(games_has_id(b, b[i].id));
    lemma_games_record_distinct(b, i);
    lemma_games_phase1(s, b, b[i].id);
    lemma_games_phase2(p1, b, b[i].id);
}

/// Absent-versus-empty edge semantics, first half: a game record without a
/// website list leaves the stored website edges of that game untouched.
pub proof fn lemma_absent_list_keeps_edges(s: StoreV, b: Seq<GameV>, i: int)
    requires
        games_distinct(b),
        0 <= i < b.len(),
        b[i].website_ids is None,
    ensures
        unchanged_at(s.game_websites, games_after(s, b).game_websites, b[i].id),
{
    let p1 = games_phase1(s, b);
    assert(games_has_id(b, b[i].id));
    lemma_games_record_distinct(b, i);
    lemma_games_phase1(s, b, b[i].id);
    lemma_games_phase2(p1, b, b[i].id);
    assert(websites_edge_outcome(s, p1, b[i], b[i].id));
    assert(games_after(s, b).game_websites == p1.game_websites);
}

/// Absent-versus-empty edge semantics, second half: a game record with an
/// empty website list removes every stored website edge of that game.
pub proof fn lemma_empty_list_clears_edges(s: StoreV, b: Seq<GameV>, i: int)
    requires
        games_distinct(b),
        0 <= i < b.len(),
        b[i].website_ids == Some(Seq::<i32>::empty()),
    ensures
        edge_seq(games_after(s, b).game_websites, b[i].id) == Seq::<i32>::empty(),
{
    let p1 = games_phase1(s, b);
    assert(games_has_id(b, b[i].id));
    lemma_games_record_distinct(b, i);
    lemma_games_phase1(s, b, b[i].id);
    lemma_games_phase2(p1, b, b[i].id);
    assert(websites_edge_outcome(s, p1, b[i], b[i].id));
    reveal(Seq::filter);
    let eff = present_website_ids(s.websites, Seq::<i32>::empty());
    assert(eff =~= Seq::<i32>::empty());
    assert(games_after(s, b).game_websites == p1.game_websites);
    if edge_seq(s.game_websites, b[i].id) == eff {
        assert(edge_seq(p1.game_websites, b[i].id) =~= Seq::<i32>::empty());
    } else {
        assert(p1.game_websites[b[i].id] == eff);
        assert(edge_seq(p1.game_websites, b[i].id) =~= Seq::<i32>::empty());
    }
}

// ---------------------------------------------------------------- snapshot

/// No two records within any one entity batch of the snapshot share a key.
pub open spec fn snapshot_distinct(b: SnapshotV) -> bool {
    &&& covers_distinct(b.covers)
    &&& websites_distinct(b.websites)
    &&& platforms_distinct(b.platforms)
    &&& games_distinct(b.games)
    &&& pops_distinct(b.popularity_primitives)
}

/// Idempotence of a full snapshot: applying the same snapshot twice leaves
/// the store exactly as the first application left it, and the second
/// application writes nothing at all.
pub proof fn lemma_snapshot_idempotent(s: StoreV, b: SnapshotV)
    requires
        snapshot_distinct(b),
    ensures
        snapshot_after(snapshot_after(s, b), b) == snapshot_after(s, b),
        snapshot_ops(snapshot_after(s, b), b).len() == 0,
{
    let s1 = covers_applied(s, b.covers);
    let s2 = websites_applied(s1, b.websites);
    let s3 = platforms_applied(s2, b.platforms);
    let s4 = games_after(s3, b.games);
    let m1 = pops_after(s4, b.popularity_primitives);
    assert(snapshot_after(s, b) == m1);
    lemma_games_phase1(s3, b.games, 0);
    lemma_games_phase2(games_phase1(s3, b.games), b.games, 0);
    lemma_pops_after(s4, b.popularity_primitives, 0);
    assert(m1.covers == covers_after(s.covers, b.covers));
    assert(m1.websites == websites_after(s.websites, b.websites));
    assert(m1.platforms == platforms_after(s.platforms, b.platforms));
    // second covers pass
    lemma_covers_idempotent(s.covers, b.covers);
    assert(covers_after(m1.covers, b.covers) == m1.covers);
    assert(covers_applied(m1, b.covers) =~= m1);
    // second websites pass
    lemma_websites_idempotent(s.websites, b.websites);
    assert(websites_after(m1.websites, b.websites) == m1.websites);
    assert(websites_applied(m1, b.websites) =~= m1);
    // second platforms pass
    lemma_platforms_idempotent(s.platforms, b.platforms);
    assert(platforms_after(m1.platforms, b.platforms) == m1.platforms);
    assert(platforms_applied(m1, b.platforms) =~= m1);
    // second games pass
    lemma_games_settled_after(s3, b.games);
    assert(m1.games == s4.games && m1.game_websites == s4.game_websites && m1.game_platforms
        == s4.game_platforms && m1.similar_games == s4.similar_games);
    assert forall|i: int| 0 <= i < b.games.len() implies game_settled(
        m1,
        #[trigger] b.games[i],
    ) by {
        assert(game_settled(s4, b.games[i]));
        let g = b.games[i];
        match g.website_ids {
            None => {},
            Some(ws) => {
                assert(present_website_ids(m1.websites, ws) == present_website_ids(
                    s4.websites,
                    ws,
                ));
            },
        }
        match g.platform_ids {
            None => {},
            Some(ps) => {
                assert(present_platform_ids(m1.platforms, ps) == present_platform_ids(
                    s4.platforms,
                    ps,
                ));
            },
        }
        match g.similar_games {
            None => {},
            Some(sg) => {
                assert(present_game_ids(m1.games, sg) == present_game_ids(s4.games, sg));
            },
        }
    }
    lemma_games_noop(m1, b.games);
    assert(games_after(m1, b.games) == m1);
    // second popularity pass
    lemma_pops_idempotent(s4, b.popularity_primitives);
    assert(pops_after(m1, b.popularity_primitives) == m1);
    assert(snapshot_after(m1, b) == m1);
    assert(snapshot_ops(m1, b).len() == 0);
}

// ---------------------------------------------------------------- schema text

proof fn lemma_remove_keep_all(ls: Seq<Seq<char>>, name: Seq<char>)
    requires
        forall|i: int| 0 <= i < ls.len() ==> !contains_pat(#[trigger] ls[i], name),
    ensures
        remove_matching_lines(ls, name) == ls,
    decreases ls.len(),
{
    reveal(Seq::filter);
    if ls.len() > 0 {
        assert forall|i: int| 0 <= i < ls.drop_last().len() implies !contains_pat(
            #[trigger] ls.drop_last()[i],
            name,
        ) by {
            assert(ls.drop_last()[i] == ls[i]);
        }
        lemma_remove_keep_all(ls.drop_last(), name);
        assert(!contains_pat(ls[ls.len() - 1], name));
        assert(remove_matching_lines(ls, name) =~= ls);
    }
}

proof fn lemma_remove_inserted(ls: Seq<Seq<char>>, k: int, c: Seq<char>, name: Seq<char>)
    requires
        0 <= k <= ls.len(),
        forall|i: int| 0 <= i < ls.len() ==> !contains_pat(#[trigger] ls[i], name),
        contains_pat(c, name),
    ensures
        remove_matching_lines(ls.insert(k, c), name) == ls,
    decreases ls.len(),
{
    reveal(Seq::filter);
    let ls2 = ls.insert(k, c);
    ls.insert_ensures(k, c);
    if k == ls.len() {
        assert(ls2.drop_last() =~= ls);
        assert(ls2.last() == c);
        lemma_remove_keep_all(ls, name);
        assert(remove_matching_lines(ls2, name) == remove_matching_lines(ls, name));
    } else {
        assert(ls2.last() == ls.last());
        assert(ls2.drop_last() =~= ls.drop_last().insert(k, c)) by {
            ls.drop_last().insert_ensures(k, c);
        }
        assert forall|i: int| 0 <= i < ls.drop_last().len() implies !contains_pat(
            #[trigger] ls.drop_last()[i],
            name,
        ) by {
            assert(ls.drop_last()[i] == ls[i]);
        }
        lemma_remove_inserted(ls.drop_last(), k, c, name);
        assert(!contains_pat(ls.last(), name));
        assert(remove_matching_lines(ls2, name) =~= remove_matching_lines(
            ls.drop_last().insert(k, c),
            name,
        ).push(ls.last()));
        assert(ls.drop_last().push(ls.last()) =~= ls);
    }
}

proof fn lemma_constraint_line_has_name(name: Seq<char>, data: Seq<char>)
    ensures
        contains_pat(constraint_line(name, data), name),
        !name.contains('\n') && !data.contains('\n') ==> !constraint_line(name, data).contains(
            '\n',
        ),
{
    reveal_strlit("CONSTRAINT ");
    reveal_strlit(" ");
    let c = constraint_line(name, data);
    let lit = "CONSTRAINT "@;
    assert(lit.len() == 11);
    assert(c.subrange(11, 11 + name.len() as int) =~= name);
    assert(matches_at(c, name, 11));
    if !name.contains('\n') && !data.contains('\n') {
        if c.contains('\n') {
            let t = choose|t: int| 0 <= t < c.len() && c[t] == '\n';
            if t < 11 {
                assert(c[t] == lit[t]);
            } else if t < 11 + name.len() {
                assert(c[t] == name[t - 11]);
                assert(name.contains('\n'));
            } else if t == 11 + name.len() {
                assert(c[t] == ' ');
            } else {
                assert(c[t] == data[t - 12 - name.len()]);
                assert(data.contains('\n'));
            }
        }
    }
}

/// Schema rebuild round-trip, at the level of the definition text: adding
/// a constraint clause to a table definition and later removing that
/// constraint again restores the definition exactly, provided no line of
/// the original definition mentions the constraint's name and neither the
/// name nor its clause spans lines.
pub proof fn lemma_constraint_round_trip(schema: Seq<char>, name: Seq<char>, data: Seq<char>)
    requires
        spec_split(schema, '\n').len() >= 2,
        forall|i: int|
            0 <= i < spec_split(schema, '\n').len() ==> !contains_pat(
                #[trigger] spec_split(schema, '\n')[i],
                name,
            ),
        !name.contains('\n'),
        !data.contains('\n'),
    ensures
        spec_join(
            remove_matching_lines(
                spec_split(
                    spec_join(
                        spec_split(schema, '\n').insert(
                            spec_split(schema, '\n').len() - 2,
                            constraint_line(name, data),
                        ),
                        '\n',
                    ),
                    '\n',
                ),
                name,
            ),
            '\n',
        ) == schema,
{
    let ls = spec_split(schema, '\n');
    let k = ls.len() - 2;
    let c = constraint_line(name, data);
    let ls2 = ls.insert(k, c);
    lemma_split_pieces(schema, '\n');
    lemma_constraint_line_has_name(name, data);
    ls.insert_ensures(k, c);
    assert forall|i: int| 0 <= i < ls2.len() implies !(#[trigger] ls2[i]).contains('\n') by {
        if i < k {
            assert(ls2[i] == ls[i]);
        } else if i == k {
            assert(ls2[i] == c);
        } else {
            assert(ls2[i] == ls[i - 1]);
        }
    }
    lemma_split_join(ls2, '\n');
    lemma_remove_inserted(ls, k, c, name);
    lemma_join_split(schema, '\n');
}

} // verus!
