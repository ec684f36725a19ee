use vstd::prelude::*;

use crate::records::{GameRow, GameRowV, PlatformRow, PlatformRowV, PopularityRow, PopularityRowV};

verus! {

/// One keyed table of the local store: rows addressed by their upstream
/// primary key, kept as (key, row) pairs with pairwise distinct keys, and
/// viewed as a map from key to the row's mathematical value.
pub struct Table<V> {
    pub rows: Vec<(i32, V)>,
}

pub open spec fn table_map<V: View>(rows: Seq<(i32, V)>) -> Map<i32, V::V>
    decreases rows.len(),
{
    if rows.len() == 0 {
        Map::empty()
    } else {
        table_map(rows.drop_last()).insert(rows.last().0, rows.last().1@)
    }
}

impl<V: View> View for Table<V> {
    type V = Map<i32, V::V>;

    open spec fn view(&self) -> Map<i32, V::V> {
        table_map(self.rows@)
    }
}

pub open spec fn unique_keys<V>(rows: Seq<(i32, V)>) -> bool {
    forall|i: int, j: int|
        0 <= i < j < rows.len() ==> (#[trigger] rows[i]).0 != (#[trigger] rows[j]).0
}

pub proof fn lemma_table_map_contains<V: View>(rows: Seq<(i32, V)>, k: i32)
    ensures
        table_map(rows).contains_key(k) <==> exists|i: int|
            0 <= i < rows.len() && (#[trigger] rows[i]).0 == k,
    decreases rows.len(),
{
    if rows.len() > 0 {
        lemma_table_map_contains(rows.drop_last(), k);
        if rows.last().0 == k {
            assert(rows[rows.len() - 1].0 == k);
        } else {
            if table_map(rows).contains_key(k) {
                let i = choose|i: int|
                    0 <= i < rows.drop_last().len() && (#[trigger] rows.drop_last()[i]).0 == k;
                assert(rows[i].0 == k);
            }
            if exists|i: int| 0 <= i < rows.len() && (#[trigger] rows[i]).0 == k {
                let i = choose|i: int| 0 <= i < rows.len() && (#[trigger] rows[i]).0 == k;
                assert(i < rows.len() - 1);
                assert(rows.drop_last()[i].0 == k);
            }
        }
    }
}

pub proof fn lemma_table_map_at_index<V: View>(rows: Seq<(i32, V)>, i: int)
    requires
        unique_keys(rows),
        0 <= i < rows.len(),
    ensures
        table_map(rows).contains_key(rows[i].0),
        table_map(rows)[rows[i].0] == rows[i].1@,
    decreases rows.len(),
{
    if i == rows.len() - 1 {
        lemma_table_map_contains(rows, rows[i].0);
    } else {
        lemma_table_map_at_index(rows.drop_last(), i);
        assert(rows.drop_last()[i] == rows[i]);
        assert(rows.last().0 != rows[i].0);
    }
}

pub proof fn lemma_table_map_update<V: View>(rows: Seq<(i32, V)>, i: int, v: V)
    requires
        unique_keys(rows),
        0 <= i < rows.len(),
    ensures
        table_map(rows.update(i, (rows[i].0, v))) =~= table_map(rows).insert(rows[i].0, v@),
        unique_keys(rows.update(i, (rows[i].0, v))),
    decreases rows.len(),
{
    let k = rows[i].0;
    let rows2 = rows.update(i, (k, v));
    assert forall|a: int, b: int| 0 <= a < b < rows2.len() implies (#[trigger] rows2[a]).0 != (
    #[trigger] rows2[b]).0 by {
        assert(rows2[a].0 == rows[a].0 && rows2[b].0 == rows[b].0);
    }
    if i == rows.len() - 1 {
        assert(rows2.drop_last() =~= rows.drop_last());
    } else {
        assert(rows2.drop_last() =~= rows.drop_last().update(i, (k, v)));
        assert(rows.drop_last()[i] == rows[i]);
        lemma_table_map_update(rows.drop_last(), i, v);
        assert(rows2.last() == rows.last());
        // inserting under two distinct keys commutes
        assert(rows.last().0 != k);
    }
}

pub proof fn lemma_table_map_push<V: View>(rows: Seq<(i32, V)>, k: i32, v: V)
    requires
        unique_keys(rows),
        !table_map(rows).contains_key(k),
    ensures
        table_map(rows.push((k, v))) =~= table_map(rows).insert(k, v@),
        unique_keys(rows.push((k, v))),
{
    assert(rows.push((k, v)).drop_last() =~= rows);
    lemma_table_map_contains(rows, k);
    let rows2 = rows.push((k, v));
    assert forall|a: int, b: int| 0 <= a < b < rows2.len() implies (#[trigger] rows2[a]).0 != (
    #[trigger] rows2[b]).0 by {
        if b < rows.len() {
            assert(rows2[a] == rows[a] && rows2[b] == rows[b]);
        } else {
            assert(rows2[a] == rows[a] && rows2[b].0 == k);
        }
    }
}

impl<V: View> Table<V> {
    pub open spec fn wf(&self) -> bool {
        unique_keys(self.rows@)
    }

    pub fn new() -> (t: Table<V>)
        ensures
            t@ =~= Map::<i32, V::V>::empty(),
            t.wf(),
    {
        Table { rows: Vec::new() }
    }

    fn find_index(&self, key: i32) -> (r: Option<usize>)
        ensures
            match r {
                Some(i) => i < self.rows@.len() && self.rows@[i as int].0 == key,
                None => forall|i: int| 0 <= i < self.rows@.len() ==> (#[trigger] self.rows@[i]).0 != key,
            },
    {
        let mut i: usize = 0;
        while i < self.rows.len()
            invariant
                i <= self.rows@.len(),
                forall|j: int| 0 <= j < i ==> (#[trigger] self.rows@[j]).0 != key,
            decreases self.rows@.len() - i,
        {
            if self.rows[i].0 == key {
                return Some(i);
            }
            i += 1;
        }
        None
    }

    /// Whether the table has a row under `key`.
    pub fn contains(&self, key: i32) -> (r: bool)
        requires
            self.wf(),
        ensures
            r == self@.contains_key(key),
    {
        proof {
            lemma_table_map_contains(self.rows@, key);
        }
        self.find_index(key).is_some()
    }

    /// The row under `key`, if the table has one.
    pub fn get(&self, key: i32) -> (r: Option<&V>)
        requires
            self.wf(),
        ensures
            match r {
                Some(v) => self@.contains_key(key) && v@ == self@[key],
                None => !self@.contains_key(key),
            },
    {
        proof {
            lemma_table_map_contains(self.rows@, key);
        }
        match self.find_index(key) {
            Some(i) => {
                proof {
                    lemma_table_map_at_index(self.rows@, i as int);
                }
                Some(&self.rows[i].1)
            }
            None => None,
        }
    }

    /// Put `v` under `key`, replacing any row already there.
    pub fn set(&mut self, key: i32, v: V)
        requires
            old(self).wf(),
        ensures
            final(self).wf(),
            final(self)@ =~= old(self)@.insert(key, v@),
    {
        let idx = self.find_index(key);
        match idx {
            Some(i) => {
                proof {
                    lemma_table_map_update(self.rows@, i as int, v);
                }
                self.rows[i] = (key, v);
            }
            None => {
                proof {
                    lemma_table_map_contains(self.rows@, key);
                    lemma_table_map_push(self.rows@, key, v);
                }
                self.rows.push((key, v));
            }
        }
    }
}

/// The local store: one table per entity type and one per edge kind.
/// Edge tables map a game id to the list of ids on the other side of the
/// relation; a game id that is absent from an edge table has no edges of
/// that kind.
pub struct Store {
    pub covers: Table<String>,
    pub websites: Table<String>,
    pub platforms: Table<PlatformRow>,
    pub games: Table<GameRow>,
    pub popularity: Table<PopularityRow>,
    pub game_websites: Table<Vec<i32>>,
    pub game_platforms: Table<Vec<i32>>,
    pub similar_games: Table<Vec<i32>>,
}

#[verifier::ext_equal]
pub ghost struct StoreV {
    pub covers: Map<i32, Seq<char>>,
    pub websites: Map<i32, Seq<char>>,
    pub platforms: Map<i32, PlatformRowV>,
    pub games: Map<i32, GameRowV>,
    pub popularity: Map<i32, PopularityRowV>,
    pub game_websites: Map<i32, Seq<i32>>,
    pub game_platforms: Map<i32, Seq<i32>>,
    pub similar_games: Map<i32, Seq<i32>>,
}

impl View for Store {
    type V = StoreV;

    open spec fn view(&self) -> StoreV {
        StoreV {
            covers: self.covers@,
            websites: self.websites@,
            platforms: self.platforms@,
            games: self.games@,
            popularity: self.popularity@,
            game_websites: self.game_websites@,
            game_platforms: self.game_platforms@,
            similar_games: self.similar_games@,
        }
    }
}

impl Store {
    pub open spec fn wf(&self) -> bool {
        &&& self.covers.wf()
        &&& self.websites.wf()
        &&& self.platforms.wf()
        &&& self.games.wf()
        &&& self.popularity.wf()
        &&& self.game_websites.wf()
        &&& self.game_platforms.wf()
        &&& self.similar_games.wf()
    }

    /// An empty store: no rows, no edges.
    pub fn new() -> (s: Store)
        ensures
            s.wf(),
            s@.covers =~= Map::<i32, Seq<char>>::empty(),
            s@.websites =~= Map::<i32, Seq<char>>::empty(),
            s@.platforms =~= Map::<i32, PlatformRowV>::empty(),
            s@.games =~= Map::<i32, GameRowV>::empty(),
            s@.popularity =~= Map::<i32, PopularityRowV>::empty(),
            s@.game_websites =~= Map::<i32, Seq<i32>>::empty(),
            s@.game_platforms =~= Map::<i32, Seq<i32>>::empty(),
            s@.similar_games =~= Map::<i32, Seq<i32>>::empty(),
    {
        Store {
            covers: Table::new(),
            websites: Table::new(),
            platforms: Table::new(),
            games: Table::new(),
            popularity: Table::new(),
            game_websites: Table::new(),
            game_platforms: Table::new(),
            similar_games: Table::new(),
        }
    }
}

} // verus!
