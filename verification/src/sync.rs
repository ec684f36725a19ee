use vstd::prelude::*;

use crate::records::{
    Cover, CoverV, Game, GameRow, GameRowV, GameV, Platform, PlatformRow, PlatformRowV, PlatformV,
    PopularityPrimitive, PopularityPrimitiveV, PopularityRow, PopularityRowV, Website, WebsiteV,
};
use crate::store::{Store, StoreV, Table};

verus! {

// The diff-upsert engine. Each entity batch is reconciled against the store:
// a record whose row is absent is inserted, one whose row differs is updated
// in place, one whose row is identical is left untouched. The write log the
// engine returns holds exactly the statements a mirroring database has to
// execute; an unchanged store yields an empty log.

/// One write against the backing store, in the order the engine decided it.
#[derive(Debug, Clone)]
pub enum WriteOp {
    InsertCover { id: i32, image_id: String },
    UpdateCover { id: i32, image_id: String },
    InsertWebsite { id: i32, url: String },
    UpdateWebsite { id: i32, url: String },
    InsertPlatform { id: i32, row: PlatformRow },
    UpdatePlatform { id: i32, row: PlatformRow },
    InsertGame { id: i32, row: GameRow },
    UpdateGame { id: i32, row: GameRow },
    ReplaceGameWebsites { game_id: i32, website_ids: Vec<i32> },
    ReplaceGamePlatforms { game_id: i32, platform_ids: Vec<i32> },
    ReplaceSimilarGames { game_id: i32, similar_game_ids: Vec<i32> },
    InsertPopularity { id: i32, row: PopularityRow },
    UpdatePopularity { id: i32, row: PopularityRow },
}

pub ghost enum OpV {
    InsertCover { id: i32, image_id: Seq<char> },
    UpdateCover { id: i32, image_id: Seq<char> },
    InsertWebsite { id: i32, url: Seq<char> },
    UpdateWebsite { id: i32, url: Seq<char> },
    InsertPlatform { id: i32, row: PlatformRowV },
    UpdatePlatform { id: i32, row: PlatformRowV },
    InsertGame { id: i32, row: GameRowV },
    UpdateGame { id: i32, row: GameRowV },
    ReplaceGameWebsites { game_id: i32, website_ids: Seq<i32> },
    ReplaceGamePlatforms { game_id: i32, platform_ids: Seq<i32> },
    ReplaceSimilarGames { game_id: i32, similar_game_ids: Seq<i32> },
    InsertPopularity { id: i32, row: PopularityRowV },
    UpdatePopularity { id: i32, row: PopularityRowV },
}

impl View for WriteOp {
    type V = OpV;

    open spec fn view(&self) -> OpV {
        match self {
            WriteOp::InsertCover { id, image_id } => OpV::InsertCover {
                id: *id,
                image_id: image_id@,
            },
            WriteOp::UpdateCover { id, image_id } => OpV::UpdateCover {
                id: *id,
                image_id: image_id@,
            },
            WriteOp::InsertWebsite { id, url } => OpV::InsertWebsite { id: *id, url: url@ },
            WriteOp::UpdateWebsite { id, url } => OpV::UpdateWebsite { id: *id, url: url@ },
            WriteOp::InsertPlatform { id, row } => OpV::InsertPlatform { id: *id, row: row@ },
            WriteOp::UpdatePlatform { id, row } => OpV::UpdatePlatform { id: *id, row: row@ },
            WriteOp::InsertGame { id, row } => OpV::InsertGame { id: *id, row: row@ },
            WriteOp::UpdateGame { id, row } => OpV::UpdateGame { id: *id, row: row@ },
            WriteOp::ReplaceGameWebsites { game_id, website_ids } => OpV::ReplaceGameWebsites {
                game_id: *game_id,
                website_ids: website_ids@,
            },
            WriteOp::ReplaceGamePlatforms { game_id, platform_ids } => OpV::ReplaceGamePlatforms {
                game_id: *game_id,
                platform_ids: platform_ids@,
            },
            WriteOp::ReplaceSimilarGames { game_id, similar_game_ids } => OpV::ReplaceSimilarGames {
                game_id: *game_id,
                similar_game_ids: similar_game_ids@,
            },
            WriteOp::InsertPopularity { id, row } => OpV::InsertPopularity { id: *id, row: row@ },
            WriteOp::UpdatePopularity { id, row } => OpV::UpdatePopularity { id: *id, row: row@ },
        }
    }
}

impl DeepView for WriteOp {
    type V = OpV;

    open spec fn deep_view(&self) -> OpV {
        self.view()
    }
}

/// Diff-upsert of one keyed row: keep the map where the stored value is
/// already `v`, otherwise store `v` under `id`.
pub open spec fn upsert_entry<T>(m: Map<i32, T>, id: i32, v: T) -> Map<i32, T> {
    if m.contains_key(id) && m[id] == v {
        m
    } else {
        m.insert(id, v)
    }
}

// ---------------------------------------------------------------- covers

pub open spec fn covers_after(m: Map<i32, Seq<char>>, b: Seq<CoverV>) -> Map<i32, Seq<char>>
    decreases b.len(),
{
    if b.len() == 0 {
        m
    } else {
        upsert_entry(covers_after(m, b.drop_last()), b.last().id, b.last().image_id)
    }
}

pub open spec fn cover_op(m: Map<i32, Seq<char>>, c: CoverV) -> Seq<OpV> {
    if m.contains_key(c.id) {
        if m[c.id] == c.image_id {
            seq![]
        } else {
            seq![OpV::UpdateCover { id: c.id, image_id: c.image_id }]
        }
    } else {
        seq![OpV::InsertCover { id: c.id, image_id: c.image_id }]
    }
}

pub open spec fn covers_ops(m: Map<i32, Seq<char>>, b: Seq<CoverV>) -> Seq<OpV>
    decreases b.len(),
{
    if b.len() == 0 {
        seq![]
    } else {
        covers_ops(m, b.drop_last()) + cover_op(covers_after(m, b.drop_last()), b.last())
    }
}

/// The store after one covers batch: only the covers table moves.
pub open spec fn covers_applied(s: StoreV, b: Seq<CoverV>) -> StoreV {
    StoreV { covers: covers_after(s.covers, b), ..s }
}

/// Reconcile a batch of cover records against the store.
///
/// Every cover ends up stored under its id with the batch's image; rows the
/// batch does not name keep their value, and a row that already matches its
/// record is not written.
pub fn insert_covers(store: &mut Store, covers: &Vec<Cover>) -> (ops: Vec<WriteOp>)
    requires
        old(store).wf(),
    ensures
        final(store).wf(),
        final(store)@ == covers_applied(old(store)@, covers.deep_view()),
        ops.deep_view() == covers_ops(old(store)@.covers, covers.deep_view()),
{
    let ghost s0 = store@;
    let ghost bv = covers.deep_view();
    let mut ops: Vec<WriteOp> = Vec::new();
    let mut i: usize = 0;
    while i < covers.len()
        invariant
            store.wf(),
            i <= covers.len(),
            bv == covers.deep_view(),
            bv.len() == covers@.len(),
            store@.covers == covers_after(s0.covers, bv.subrange(0, i as int)),
            store@ == (StoreV { covers: store@.covers, ..s0 }),
            ops.deep_view() == covers_ops(s0.covers, bv.subrange(0, i as int)),
        decreases covers@.len() - i,
    {
        let ghost pre = store@.covers;
        let ghost ops_pre = ops.deep_view();
        let c = &covers[i];
        proof {
            assert(bv[i as int] == c@);
        }
        let action: UpsertAction = match store.covers.get(c.id) {
            Some(image_id) => {
                if *image_id == c.image_id {
                    UpsertAction::Noop
                } else {
                    UpsertAction::Update
                }
            },
            None => UpsertAction::Insert,
        };
        match action {
            UpsertAction::Noop => {},
            UpsertAction::Update => {
                ops.push(WriteOp::UpdateCover { id: c.id, image_id: c.image_id.clone() });
                store.covers.set(c.id, c.image_id.clone());
            },
            UpsertAction::Insert => {
                ops.push(WriteOp::InsertCover { id: c.id, image_id: c.image_id.clone() });
                store.covers.set(c.id, c.image_id.clone());
            },
        }
        proof {
            let prefix = bv.subrange(0, i as int);
            let prefix1 = bv.subrange(0, i + 1 as int);
            assert(prefix1.drop_last() =~= prefix);
            assert(prefix1.last() == bv[i as int]);
            assert(store@.covers =~= upsert_entry(pre, c@.id, c@.image_id));
            assert(store@.covers == covers_after(s0.covers, prefix1));
            assert(ops.deep_view() =~= ops_pre + cover_op(pre, c@));
            assert(ops.deep_view() == covers_ops(s0.covers, prefix1));
            assert(store@ =~= (StoreV { covers: store@.covers, ..s0 }));
        }
        i += 1;
    }
    proof {
        assert(bv.subrange(0, covers@.len() as int) =~= bv);
        assert(store@ =~= covers_applied(s0, bv));
    }
    ops
}

enum UpsertAction {
    Noop,
    Update,
    Insert,
}

// ---------------------------------------------------------------- websites

pub open spec fn websites_after(m: Map<i32, Seq<char>>, b: Seq<WebsiteV>) -> Map<i32, Seq<char>>
    decreases b.len(),
{
    if b.len() == 0 {
        m
    } else {
        upsert_entry(websites_after(m, b.drop_last()), b.last().id, b.last().url)
    }
}

pub open spec fn website_op(m: Map<i32, Seq<char>>, w: WebsiteV) -> Seq<OpV> {
    if m.contains_key(w.id) {
        if m[w.id] == w.url {
            seq![]
        } else {
            seq![OpV::UpdateWebsite { id: w.id, url: w.url }]
        }
    } else {
        seq![OpV::InsertWebsite { id: w.id, url: w.url }]
    }
}

pub open spec fn websites_ops(m: Map<i32, Seq<char>>, b: Seq<WebsiteV>) -> Seq<OpV>
    decreases b.len(),
{
    if b.len() == 0 {
        seq![]
    } else {
        websites_ops(m, b.drop_last()) + website_op(websites_after(m, b.drop_last()), b.last())
    }
}

/// The store after one websites batch: only the websites table moves.
pub open spec fn websites_applied(s: StoreV, b: Seq<WebsiteV>) -> StoreV {
    StoreV { websites: websites_after(s.websites, b), ..s }
}

/// Reconcile a batch of website records against the store.
pub fn insert_websites(store: &mut Store, websites: &Vec<Website>) -> (ops: Vec<WriteOp>)
    requires
        old(store).wf(),
    ensures
        final(store).wf(),
        final(store)@ == websites_applied(old(store)@, websites.deep_view()),
        ops.deep_view() == websites_ops(old(store)@.websites, websites.deep_view()),
{
    let ghost s0 = store@;
    let ghost bv = websites.deep_view();
    let mut ops: Vec<WriteOp> = Vec::new();
    let mut i: usize = 0;
    while i < websites.len()
        invariant
            store.wf(),
            i <= websites.len(),
            bv == websites.deep_view(),
            bv.len() == websites@.len(),
            store@.websites == websites_after(s0.websites, bv.subrange(0, i as int)),
            store@ == (StoreV { websites: store@.websites, ..s0 }),
            ops.deep_view() == websites_ops(s0.websites, bv.subrange(0, i as int)),
        decreases websites@.len() - i,
    {
        let ghost pre = store@.websites;
        let ghost ops_pre = ops.deep_view();
        let w = &websites[i];
        proof {
            assert(bv[i as int] == w@);
        }
        let action: UpsertAction = match store.websites.get(w.id) {
            Some(url) => {
                if *url == w.url {
                    UpsertAction::Noop
                } else {
                    UpsertAction::Update
                }
            },
            None => UpsertAction::Insert,
        };
        match action {
            UpsertAction::Noop => {},
            UpsertAction::Update => {
                ops.push(WriteOp::UpdateWebsite { id: w.id, url: w.url.clone() });
                store.websites.set(w.id, w.url.clone());
            },
            UpsertAction::Insert => {
                ops.push(WriteOp::InsertWebsite { id: w.id, url: w.url.clone() });
                store.websites.set(w.id, w.url.clone());
            },
        }
        proof {
            let prefix = bv.subrange(0, i as int);
            let prefix1 = bv.subrange(0, i + 1 as int);
            assert(prefix1.drop_last() =~= prefix);
            assert(prefix1.last() == bv[i as int]);
            assert(store@.websites =~= upsert_entry(pre, w@.id, w@.url));
            assert(store@.websites == websites_after(s0.websites, prefix1));
            assert(ops.deep_view() =~= ops_pre + website_op(pre, w@));
            assert(ops.deep_view() == websites_ops(s0.websites, prefix1));
            assert(store@ =~= (StoreV { websites: store@.websites, ..s0 }));
        }
        i += 1;
    }
    proof {
        assert(bv.subrange(0, websites@.len() as int) =~= bv);
        assert(store@ =~= websites_applied(s0, bv));
    }
    ops
}

// ---------------------------------------------------------------- platforms

pub open spec fn platform_row_of(p: PlatformV) -> PlatformRowV {
    PlatformRowV { name: p.name, category: p.category }
}

pub open spec fn platforms_after(m: Map<i32, PlatformRowV>, b: Seq<PlatformV>) -> Map<
    i32,
    PlatformRowV,
>
    decreases b.len(),
{
    if b.len() == 0 {
        m
    } else {
        upsert_entry(platforms_after(m, b.drop_last()), b.last().id, platform_row_of(b.last()))
    }
}

pub open spec fn platform_op(m: Map<i32, PlatformRowV>, p: PlatformV) -> Seq<OpV> {
    if m.contains_key(p.id) {
        if m[p.id] == platform_row_of(p) {
            seq![]
        } else {
            seq![OpV::UpdatePlatform { id: p.id, row: platform_row_of(p) }]
        }
    } else {
        seq![OpV::InsertPlatform { id: p.id, row: platform_row_of(p) }]
    }
}

pub open spec fn platforms_ops(m: Map<i32, PlatformRowV>, b: Seq<PlatformV>) -> Seq<OpV>
    decreases b.len(),
{
    if b.len() == 0 {
        seq![]
    } else {
        platforms_ops(m, b.drop_last()) + platform_op(platforms_after(m, b.drop_last()), b.last())
    }
}

/// The store after one platforms batch: only the platforms table moves.
pub open spec fn platforms_applied(s: StoreV, b: Seq<PlatformV>) -> StoreV {
    StoreV { platforms: platforms_after(s.platforms, b), ..s }
}

fn opt_i32_eq(a: &Option<i32>, b: &Option<i32>) -> (r: bool)
    ensures
        r == (a == b),
{
    match (a, b) {
        (Some(x), Some(y)) => *x == *y,
        (None, None) => true,
        _ => false,
    }
}

fn platform_row_eq(a: &PlatformRow, b: &PlatformRow) -> (r: bool)
    ensures
        r == (a@ == b@),
{
    let r = a.name == b.name && opt_i32_eq(&a.category, &b.category);
    proof {
        if a.name@ == b.name@ && a.category == b.category {
            assert(a@ =~= b@);
        }
    }
    r
}

/// Reconcile a batch of platform records against the store.
pub fn insert_platforms(store: &mut Store, platforms: &Vec<Platform>) -> (ops: Vec<WriteOp>)
    requires
        old(store).wf(),
    ensures
        final(store).wf(),
        final(store)@ == platforms_applied(old(store)@, platforms.deep_view()),
        ops.deep_view() == platforms_ops(old(store)@.platforms, platforms.deep_view()),
{
    let ghost s0 = store@;
    let ghost bv = platforms.deep_view();
    let mut ops: Vec<WriteOp> = Vec::new();
    let mut i: usize = 0;
    while i < platforms.len()
        invariant
            store.wf(),
            i <= platforms.len(),
            bv == platforms.deep_view(),
            bv.len() == platforms@.len(),
            store@.platforms == platforms_after(s0.platforms, bv.subrange(0, i as int)),
            store@ == (StoreV { platforms: store@.platforms, ..s0 }),
            ops.deep_view() == platforms_ops(s0.platforms, bv.subrange(0, i as int)),
        decreases platforms@.len() - i,
    {
        let ghost pre = store@.platforms;
        let ghost ops_pre = ops.deep_view();
        let p = &platforms[i];
        proof {
            assert(bv[i as int] == p@);
        }
        let row = PlatformRow { name: p.name.clone(), category: p.category };
        let action: UpsertAction = match store.platforms.get(p.id) {
            Some(existing) => {
                if platform_row_eq(existing, &row) {
                    UpsertAction::Noop
                } else {
                    UpsertAction::Update
                }
            },
            None => UpsertAction::Insert,
        };
        proof {
            assert(row@ == platform_row_of(p@));
        }
        match action {
            UpsertAction::Noop => {},
            UpsertAction::Update => {
                let logged = PlatformRow { name: p.name.clone(), category: p.category };
                ops.push(WriteOp::UpdatePlatform { id: p.id, row: logged });
                store.platforms.set(p.id, row);
            },
            UpsertAction::Insert => {
                let logged = PlatformRow { name: p.name.clone(), category: p.category };
                ops.push(WriteOp::InsertPlatform { id: p.id, row: logged });
                store.platforms.set(p.id, row);
            },
        }
        proof {
            let prefix = bv.subrange(0, i as int);
            let prefix1 = bv.subrange(0, i + 1 as int);
            assert(prefix1.drop_last() =~= prefix);
            assert(prefix1.last() == bv[i as int]);
            assert(store@.platforms =~= upsert_entry(pre, p@.id, platform_row_of(p@)));
            assert(store@.platforms == platforms_after(s0.platforms, prefix1));
            assert(ops.deep_view() =~= ops_pre + platform_op(pre, p@));
            assert(ops.deep_view() == platforms_ops(s0.platforms, prefix1));
            assert(store@ =~= (StoreV { platforms: store@.platforms, ..s0 }));
        }
        i += 1;
    }
    proof {
        assert(bv.subrange(0, platforms@.len() as int) =~= bv);
        assert(store@ =~= platforms_applied(s0, bv));
    }
    ops
}


// ---------------------------------------------------------------- games

/// The cover reference a game row is stored with: a reference to a cover
/// that the store does not hold is dropped and stored as `None`.
pub open spec fn resolved_cover(covers: Map<i32, Seq<char>>, g: GameV) -> Option<i32> {
    match g.cover_id {
        Some(c) => if covers.contains_key(c) {
            Some(c)
        } else {
            None
        },
        None => None,
    }
}

pub open spec fn game_row_of(covers: Map<i32, Seq<char>>, g: GameV) -> GameRowV {
    GameRowV {
        name: g.name,
        cover_id: resolved_cover(covers, g),
        category: g.category,
        version_parent: g.version_parent,
        total_rating: g.total_rating,
    }
}

/// The edges a game has in one edge table; an absent key means no edges.
pub open spec fn edge_seq(m: Map<i32, Seq<i32>>, id: i32) -> Seq<i32> {
    if m.contains_key(id) {
        m[id]
    } else {
        seq![]
    }
}

/// The website ids of a record that the store knows; unknown ids are dropped.
pub open spec fn present_website_ids(websites: Map<i32, Seq<char>>, ids: Seq<i32>) -> Seq<i32> {
    ids.filter(|w: i32| websites.contains_key(w))
}

pub open spec fn present_platform_ids(platforms: Map<i32, PlatformRowV>, ids: Seq<i32>) -> Seq<
    i32,
> {
    ids.filter(|p: i32| platforms.contains_key(p))
}

pub open spec fn present_game_ids(games: Map<i32, GameRowV>, ids: Seq<i32>) -> Seq<i32> {
    ids.filter(|x: i32| games.contains_key(x))
}

pub open spec fn game_row_applied(s: StoreV, g: GameV) -> StoreV {
    StoreV { games: upsert_entry(s.games, g.id, game_row_of(s.covers, g)), ..s }
}

pub open spec fn game_row_op(s: StoreV, g: GameV) -> Seq<OpV> {
    let row = game_row_of(s.covers, g);
    if s.games.contains_key(g.id) {
        if s.games[g.id] == row {
            seq![]
        } else {
            seq![OpV::UpdateGame { id: g.id, row }]
        }
    } else {
        seq![OpV::InsertGame { id: g.id, row }]
    }
}

/// Full replacement of a game's website edges, driven by the record: an
/// absent list leaves the stored edges alone, a present list replaces them
/// wholesale, and nothing is written when the stored edges already match.
pub open spec fn game_websites_applied(s: StoreV, g: GameV) -> StoreV {
    match g.website_ids {
        None => s,
        Some(ws) => {
            let eff = present_website_ids(s.websites, ws);
            if edge_seq(s.game_websites, g.id) == eff {
                s
            } else {
                StoreV { game_websites: s.game_websites.insert(g.id, eff), ..s }
            }
        },
    }
}

pub open spec fn game_websites_op(s: StoreV, g: GameV) -> Seq<OpV> {
    match g.website_ids {
        None => seq![],
        Some(ws) => {
            let eff = present_website_ids(s.websites, ws);
            if edge_seq(s.game_websites, g.id) == eff {
                seq![]
            } else {
                seq![OpV::ReplaceGameWebsites { game_id: g.id, website_ids: eff }]
            }
        },
    }
}

pub open spec fn game_platforms_applied(s: StoreV, g: GameV) -> StoreV {
    match g.platform_ids {
        None => s,
        Some(ps) => {
            let eff = present_platform_ids(s.platforms, ps);
            if edge_seq(s.game_platforms, g.id) == eff {
                s
            } else {
                StoreV { game_platforms: s.game_platforms.insert(g.id, eff), ..s }
            }
        },
    }
}

pub open spec fn game_platforms_op(s: StoreV, g: GameV) -> Seq<OpV> {
    match g.platform_ids {
        None => seq![],
        Some(ps) => {
            let eff = present_platform_ids(s.platforms, ps);
            if edge_seq(s.game_platforms, g.id) == eff {
                seq![]
            } else {
                seq![OpV::ReplaceGamePlatforms { game_id: g.id, platform_ids: eff }]
            }
        },
    }
}

/// First pass for one game record: its row and its website and platform
/// edges. Similar-game edges wait for the second pass.
pub open spec fn phase1_game(s: StoreV, g: GameV) -> StoreV {
    game_platforms_applied(game_websites_applied(game_row_applied(s, g), g), g)
}

pub open spec fn phase1_game_ops(s: StoreV, g: GameV) -> Seq<OpV> {
    game_row_op(s, g) + game_websites_op(game_row_applied(s, g), g) + game_platforms_op(
        game_websites_applied(game_row_applied(s, g), g),
        g,
    )
}

pub open spec fn games_phase1(s: StoreV, b: Seq<GameV>) -> StoreV
    decreases b.len(),
{
    if b.len() == 0 {
        s
    } else {
        phase1_game(games_phase1(s, b.drop_last()), b.last())
    }
}

pub open spec fn games_phase1_ops(s: StoreV, b: Seq<GameV>) -> Seq<OpV>
    decreases b.len(),
{
    if b.len() == 0 {
        seq![]
    } else {
        games_phase1_ops(s, b.drop_last()) + phase1_game_ops(
            games_phase1(s, b.drop_last()),
            b.last(),
        )
    }
}

/// Second pass for one game record: its similar-game edges, written only
/// for candidates that exist as game rows once the whole batch is in.
pub open spec fn phase2_game(s: StoreV, g: GameV) -> StoreV {
    match g.similar_games {
        None => s,
        Some(sg) => {
            let eff = present_game_ids(s.games, sg);
            if edge_seq(s.similar_games, g.id) == eff {
                s
            } else {
                StoreV { similar_games: s.similar_games.insert(g.id, eff), ..s }
            }
        },
    }
}

pub open spec fn phase2_game_op(s: StoreV, g: GameV) -> Seq<OpV> {
    match g.similar_games {
        None => seq![],
        Some(sg) => {
            let eff = present_game_ids(s.games, sg);
            if edge_seq(s.similar_games, g.id) == eff {
                seq![]
            } else {
                seq![OpV::ReplaceSimilarGames { game_id: g.id, similar_game_ids: eff }]
            }
        },
    }
}

pub open spec fn games_phase2(s: StoreV, b: Seq<GameV>) -> StoreV
    decreases b.len(),
{
    if b.len() == 0 {
        s
    } else {
        phase2_game(games_phase2(s, b.drop_last()), b.last())
    }
}

pub open spec fn games_phase2_ops(s: StoreV, b: Seq<GameV>) -> Seq<OpV>
    decreases b.len(),
{
    if b.len() == 0 {
        seq![]
    } else {
        games_phase2_ops(s, b.drop_last()) + phase2_game_op(
            games_phase2(s, b.drop_last()),
            b.last(),
        )
    }
}

/// The store after one games batch: both passes.
pub open spec fn games_after(s: StoreV, b: Seq<GameV>) -> StoreV {
    games_phase2(games_phase1(s, b), b)
}

pub open spec fn games_ops(s: StoreV, b: Seq<GameV>) -> Seq<OpV> {
    games_phase1_ops(s, b) + games_phase2_ops(games_phase1(s, b), b)
}

fn opt_u32_eq(a: &Option<u32>, b: &Option<u32>) -> (r: bool)
    ensures
        r == (a == b),
{
    match (a, b) {
        (Some(x), Some(y)) => *x == *y,
        (None, None) => true,
        _ => false,
    }
}

fn game_row_eq(a: &GameRow, b: &GameRow) -> (r: bool)
    ensures
        r == (a@ == b@),
{
    let r = a.name == b.name && opt_i32_eq(&a.cover_id, &b.cover_id) && a.category == b.category
        && opt_i32_eq(&a.version_parent, &b.version_parent) && opt_u32_eq(
        &a.total_rating,
        &b.total_rating,
    );
    proof {
        if a.name@ == b.name@ && a.cover_id == b.cover_id && a.category == b.category
            && a.version_parent == b.version_parent && a.total_rating == b.total_rating {
            assert(a@ =~= b@);
        }
    }
    r
}

fn vec_i32_eq(a: &Vec<i32>, b: &Vec<i32>) -> (r: bool)
    ensures
        r == (a@ == b@),
{
    let r = *a == *b;
    proof {
        assert(a@.len() == b@.len() && (forall|i: int| 0 <= i < a@.len() ==> a@[i] == b@[i])
            ==> a@ =~= b@);
    }
    r
}

fn copy_ids(v: &Vec<i32>) -> (r: Vec<i32>)
    ensures
        r@ == v@,
{
    let mut r: Vec<i32> = Vec::new();
    let mut i: usize = 0;
    while i < v.len()
        invariant
            i <= v@.len(),
            r@ =~= v@.subrange(0, i as int),
        decreases v@.len() - i,
    {
        r.push(v[i]);
        i += 1;
    }
    proof {
        assert(v@.subrange(0, v@.len() as int) =~= v@);
    }
    r
}

fn filter_by_websites(t: &Table<String>, ids: &Vec<i32>) -> (r: Vec<i32>)
    requires
        t.wf(),
    ensures
        r@ == present_website_ids(t@, ids@),
{
    let mut r: Vec<i32> = Vec::new();
    let mut i: usize = 0;
    while i < ids.len()
        invariant
            t.wf(),
            i <= ids@.len(),
            r@ == present_website_ids(t@, ids@.subrange(0, i as int)),
        decreases ids@.len() - i,
    {
        let ghost prefix = ids@.subrange(0, i as int);
        let ghost prefix1 = ids@.subrange(0, i + 1 as int);
        if t.contains(ids[i]) {
            r.push(ids[i]);
        }
        proof {
            reveal(Seq::filter);
            assert(prefix1.drop_last() =~= prefix);
            assert(prefix1.last() == ids@[i as int]);
            assert(r@ == present_website_ids(t@, prefix1));
        }
        i += 1;
    }
    proof {
        assert(ids@.subrange(0, ids@.len() as int) =~= ids@);
    }
    r
}

fn filter_by_platforms(t: &Table<PlatformRow>, ids: &Vec<i32>) -> (r: Vec<i32>)
    requires
        t.wf(),
    ensures
        r@ == present_platform_ids(t@, ids@),
{
    let mut r: Vec<i32> = Vec::new();
    let mut i: usize = 0;
    while i < ids.len()
        invariant
            t.wf(),
            i <= ids@.len(),
            r@ == present_platform_ids(t@, ids@.subrange(0, i as int)),
        decreases ids@.len() - i,
    {
        let ghost prefix = ids@.subrange(0, i as int);
        let ghost prefix1 = ids@.subrange(0, i + 1 as int);
        if t.contains(ids[i]) {
            r.push(ids[i]);
        }
        proof {
            reveal(Seq::filter);
            assert(prefix1.drop_last() =~= prefix);
            assert(prefix1.last() == ids@[i as int]);
            assert(r@ == present_platform_ids(t@, prefix1));
        }
        i += 1;
    }
    proof {
        assert(ids@.subrange(0, ids@.len() as int) =~= ids@);
    }
    r
}

fn filter_by_games(t: &Table<GameRow>, ids: &Vec<i32>) -> (r: Vec<i32>)
    requires
        t.wf(),
    ensures
        r@ == present_game_ids(t@, ids@),
{
    let mut r: Vec<i32> = Vec::new();
    let mut i: usize = 0;
    while i < ids.len()
        invariant
            t.wf(),
            i <= ids@.len(),
            r@ == present_game_ids(t@, ids@.subrange(0, i as int)),
        decreases ids@.len() - i,
    {
        let ghost prefix = ids@.subrange(0, i as int);
        let ghost prefix1 = ids@.subrange(0, i + 1 as int);
        if t.contains(ids[i]) {
            r.push(ids[i]);
        }
        proof {
            reveal(Seq::filter);
            assert(prefix1.drop_last() =~= prefix);
            assert(prefix1.last() == ids@[i as int]);
            assert(r@ == present_game_ids(t@, prefix1));
        }
        i += 1;
    }
    proof {
        assert(ids@.subrange(0, ids@.len() as int) =~= ids@);
    }
    r
}

/// Reconcile a batch of game records against the store, in two passes.
///
/// The first pass upserts every game row (a dangling cover reference is
/// stored as `None`) and replaces website and platform edges wholesale for
/// records that carry those lists. The second pass resolves similar-game
/// edges only after every game row of the batch exists, so a reference may
/// point forward to a record later in the batch; candidates that still name
/// no game row are dropped silently.
pub fn insert_games(store: &mut Store, games: &Vec<Game>) -> (ops: Vec<WriteOp>)
    requires
        old(store).wf(),
    ensures
        final(store).wf(),
        final(store)@ == games_after(old(store)@, games.deep_view()),
        ops.deep_view() == games_ops(old(store)@, games.deep_view()),
{
    let ghost s0 = store@;
    let ghost bv = games.deep_view();
    let mut ops: Vec<WriteOp> = Vec::new();
    let mut i: usize = 0;
    while i < games.len()
        invariant
            store.wf(),
            i <= games.len(),
            bv == games.deep_view(),
            bv.len() == games@.len(),
            store@ == games_phase1(s0, bv.subrange(0, i as int)),
            ops.deep_view() == games_phase1_ops(s0, bv.subrange(0, i as int)),
        decreases games@.len() - i,
    {
        let ghost s_pre = store@;
        let ghost ops_pre = ops.deep_view();
        let g = &games[i];
        proof {
            assert(bv[i as int] == g@);
        }
        // row
        let cover: Option<i32> = match g.cover_id {
            Some(cid) => if store.covers.contains(cid) {
                Some(cid)
            } else {
                None
            },
            None => None,
        };
        let row = GameRow {
            name: g.name.clone(),
            cover_id: cover,
            category: g.category,
            version_parent: g.version_parent,
            total_rating: g.total_rating,
        };
        proof {
            assert(row@ =~= game_row_of(store@.covers, g@));
        }
        let action: UpsertAction = match store.games.get(g.id) {
            Some(existing) => {
                if game_row_eq(existing, &row) {
                    UpsertAction::Noop
                } else {
                    UpsertAction::Update
                }
            },
            None => UpsertAction::Insert,
        };
        match action {
            UpsertAction::Noop => {},
            UpsertAction::Update => {
                let logged = GameRow {
                    name: g.name.clone(),
                    cover_id: cover,
                    category: g.category,
                    version_parent: g.version_parent,
                    total_rating: g.total_rating,
                };
                ops.push(WriteOp::UpdateGame { id: g.id, row: logged });
                store.games.set(g.id, row);
            },
            UpsertAction::Insert => {
                let logged = GameRow {
                    name: g.name.clone(),
                    cover_id: cover,
                    category: g.category,
                    version_parent: g.version_parent,
                    total_rating: g.total_rating,
                };
                ops.push(WriteOp::InsertGame { id: g.id, row: logged });
                store.games.set(g.id, row);
            },
        }
        proof {
            assert(store@ =~= game_row_applied(s_pre, g@));
            assert(ops.deep_view() =~= ops_pre + game_row_op(s_pre, g@));
        }
        let ghost s_row = store@;
        let ghost ops_row = ops.deep_view();
        // website edges
        if let Some(ws) = &g.website_ids {
            let eff = filter_by_websites(&store.websites, ws);
            let replace: bool = match store.game_websites.get(g.id) {
                Some(cur) => !vec_i32_eq(cur, &eff),
                None => eff.len() > 0,
            };
            if replace {
                ops.push(WriteOp::ReplaceGameWebsites { game_id: g.id, website_ids: copy_ids(&eff) });
                store.game_websites.set(g.id, eff);
            } else {
                proof {
                    assert(edge_seq(s_row.game_websites, g@.id) =~= eff@);
                }
            }
        }
        proof {
            assert(store@ =~= game_websites_applied(s_row, g@));
            assert(ops.deep_view() =~= ops_row + game_websites_op(s_row, g@));
        }
        let ghost s_ws = store@;
        let ghost ops_ws = ops.deep_view();
        // platform edges
        if let Some(ps) = &g.platform_ids {
            let eff = filter_by_platforms(&store.platforms, ps);
            let replace: bool = match store.game_platforms.get(g.id) {
                Some(cur) => !vec_i32_eq(cur, &eff),
                None => eff.len() > 0,
            };
            if replace {
                ops.push(WriteOp::ReplaceGamePlatforms { game_id: g.id, platform_ids: copy_ids(&eff) });
                store.game_platforms.set(g.id, eff);
            } else {
                proof {
                    assert(edge_seq(s_ws.game_platforms, g@.id) =~= eff@);
                }
            }
        }
        proof {
            assert(store@ =~= game_platforms_applied(s_ws, g@));
            assert(ops.deep_view() =~= ops_ws + game_platforms_op(s_ws, g@));
            let prefix = bv.subrange(0, i as int);
            let prefix1 = bv.subrange(0, i + 1 as int);
            assert(prefix1.drop_last() =~= prefix);
            assert(prefix1.last() == bv[i as int]);
            assert(store@ == games_phase1(s0, prefix1));
            assert(ops.deep_view() =~= games_phase1_ops(s0, prefix1));
        }
        i += 1;
    }
    proof {
        assert(bv.subrange(0, games@.len() as int) =~= bv);
    }
    let ghost s1 = store@;
    let ghost ops1 = ops.deep_view();
    let mut j: usize = 0;
    while j < games.len()
        invariant
            store.wf(),
            j <= games.len(),
            bv == games.deep_view(),
            bv.len() == games@.len(),
            store@ == games_phase2(s1, bv.subrange(0, j as int)),
            ops.deep_view() == ops1 + games_phase2_ops(s1, bv.subrange(0, j as int)),
        decreases games@.len() - j,
    {
        let ghost s_pre = store@;
        let ghost ops_pre = ops.deep_view();
        let g = &games[j];
        proof {
            assert(bv[j as int] == g@);
        }
        if let Some(sg) = &g.similar_games {
            let eff = filter_by_games(&store.games, sg);
            proof {
                assert(store@.games =~= s_pre.games);
            }
            let replace: bool = match store.similar_games.get(g.id) {
                Some(cur) => !vec_i32_eq(cur, &eff),
                None => eff.len() > 0,
            };
            if replace {
                ops.push(WriteOp::ReplaceSimilarGames { game_id: g.id, similar_game_ids: copy_ids(&eff) });
                store.similar_games.set(g.id, eff);
            } else {
                proof {
                    assert(edge_seq(s_pre.similar_games, g@.id) =~= eff@);
                }
            }
        }
        proof {
            assert(store@ =~= phase2_game(s_pre, g@));
            assert(ops.deep_view() =~= ops_pre + phase2_game_op(s_pre, g@));
            let prefix = bv.subrange(0, j as int);
            let prefix1 = bv.subrange(0, j + 1 as int);
            assert(prefix1.drop_last() =~= prefix);
            assert(prefix1.last() == bv[j as int]);
            assert(store@ == games_phase2(s1, prefix1));
            assert(ops.deep_view() =~= ops1 + games_phase2_ops(s1, prefix1));
        }
        j += 1;
    }
    proof {
        assert(bv.subrange(0, games@.len() as int) =~= bv);
        assert(store@ == games_after(s0, bv));
        assert(ops.deep_view() == games_ops(s0, bv));
    }
    ops
}

// ---------------------------------------------------------------- popularity

pub open spec fn popularity_row_of(p: PopularityPrimitiveV) -> PopularityRowV {
    PopularityRowV { game_id: p.game_id, popularity_type: p.popularity_type, value: p.value }
}

/// Diff-upsert of one popularity record. A record whose `game_id` names no
/// stored game is discarded: the weak reference is dangling.
pub open spec fn popularity_applied(s: StoreV, p: PopularityPrimitiveV) -> StoreV {
    if !s.games.contains_key(p.game_id) {
        s
    } else {
        StoreV { popularity: upsert_entry(s.popularity, p.id, popularity_row_of(p)), ..s }
    }
}

pub open spec fn popularity_op(s: StoreV, p: PopularityPrimitiveV) -> Seq<OpV> {
    if !s.games.contains_key(p.game_id) {
        seq![]
    } else if s.popularity.contains_key(p.id) {
        if s.popularity[p.id] == popularity_row_of(p) {
            seq![]
        } else {
            seq![OpV::UpdatePopularity { id: p.id, row: popularity_row_of(p) }]
        }
    } else {
        seq![OpV::InsertPopularity { id: p.id, row: popularity_row_of(p) }]
    }
}

pub open spec fn pops_after(s: StoreV, b: Seq<PopularityPrimitiveV>) -> StoreV
    decreases b.len(),
{
    if b.len() == 0 {
        s
    } else {
        popularity_applied(pops_after(s, b.drop_last()), b.last())
    }
}

pub open spec fn pops_ops(s: StoreV, b: Seq<PopularityPrimitiveV>) -> Seq<OpV>
    decreases b.len(),
{
    if b.len() == 0 {
        seq![]
    } else {
        pops_ops(s, b.drop_last()) + popularity_op(pops_after(s, b.drop_last()), b.last())
    }
}

fn popularity_row_eq(a: &PopularityRow, b: &PopularityRow) -> (r: bool)
    ensures
        r == (a@ == b@),
{
    let r = a.game_id == b.game_id && a.popularity_type == b.popularity_type && a.value == b.value;
    proof {
        if a.game_id == b.game_id && a.popularity_type == b.popularity_type && a.value == b.value {
            assert(a@ =~= b@);
        }
    }
    r
}

/// Reconcile a batch of popularity records against the store. A record whose
/// game is unknown is skipped; the rest of the batch still goes through.
pub fn insert_popularity_primitives(
    store: &mut Store,
    primitives: &Vec<PopularityPrimitive>,
) -> (ops: Vec<WriteOp>)
    requires
        old(store).wf(),
    ensures
        final(store).wf(),
        final(store)@ == pops_after(old(store)@, primitives.deep_view()),
        ops.deep_view() == pops_ops(old(store)@, primitives.deep_view()),
{
    let ghost s0 = store@;
    let ghost bv = primitives.deep_view();
    let mut ops: Vec<WriteOp> = Vec::new();
    let mut i: usize = 0;
    while i < primitives.len()
        invariant
            store.wf(),
            i <= primitives.len(),
            bv == primitives.deep_view(),
            bv.len() == primitives@.len(),
            store@ == pops_after(s0, bv.subrange(0, i as int)),
            ops.deep_view() == pops_ops(s0, bv.subrange(0, i as int)),
        decreases primitives@.len() - i,
    {
        let ghost s_pre = store@;
        let ghost ops_pre = ops.deep_view();
        let p = &primitives[i];
        proof {
            assert(bv[i as int] == p@);
        }
        if store.games.contains(p.game_id) {
            let row = PopularityRow {
                game_id: p.game_id,
                popularity_type: p.popularity_type,
                value: p.value,
            };
            proof {
                assert(row@ =~= popularity_row_of(p@));
            }
            let action: UpsertAction = match store.popularity.get(p.id) {
                Some(existing) => {
                    if popularity_row_eq(existing, &row) {
                        UpsertAction::Noop
                    } else {
                        UpsertAction::Update
                    }
                },
                None => UpsertAction::Insert,
            };
            match action {
                UpsertAction::Noop => {},
                UpsertAction::Update => {
                    ops.push(WriteOp::UpdatePopularity { id: p.id, row });
                    store.popularity.set(p.id, row);
                },
                UpsertAction::Insert => {
                    ops.push(WriteOp::InsertPopularity { id: p.id, row });
                    store.popularity.set(p.id, row);
                },
            }
        }
        proof {
            let prefix = bv.subrange(0, i as int);
            let prefix1 = bv.subrange(0, i + 1 as int);
            assert(prefix1.drop_last() =~= prefix);
            assert(prefix1.last() == bv[i as int]);
            assert(store@ =~= popularity_applied(s_pre, p@));
            assert(store@ == pops_after(s0, prefix1));
            assert(ops.deep_view() =~= ops_pre + popularity_op(s_pre, p@));
            assert(ops.deep_view() == pops_ops(s0, prefix1));
        }
        i += 1;
    }
    proof {
        assert(bv.subrange(0, primitives@.len() as int) =~= bv);
    }
    ops
}

// ---------------------------------------------------------------- snapshot

/// One full delivery of remote data, one batch per entity type.
pub struct Snapshot {
    pub covers: Vec<Cover>,
    pub websites: Vec<Website>,
    pub platforms: Vec<Platform>,
    pub games: Vec<Game>,
    pub popularity_primitives: Vec<PopularityPrimitive>,
}

pub ghost struct SnapshotV {
    pub covers: Seq<CoverV>,
    pub websites: Seq<WebsiteV>,
    pub platforms: Seq<PlatformV>,
    pub games: Seq<GameV>,
    pub popularity_primitives: Seq<PopularityPrimitiveV>,
}

impl View for Snapshot {
    type V = SnapshotV;

    open spec fn view(&self) -> SnapshotV {
        SnapshotV {
            covers: self.covers.deep_view(),
            websites: self.websites.deep_view(),
            platforms: self.platforms.deep_view(),
            games: self.games.deep_view(),
            popularity_primitives: self.popularity_primitives.deep_view(),
        }
    }
}

/// The store after a full snapshot, applied in dependency order: covers,
/// websites and platforms first, then games, then popularity records.
pub open spec fn snapshot_after(s: StoreV, b: SnapshotV) -> StoreV {
    pops_after(
        games_after(
            platforms_applied(
                websites_applied(covers_applied(s, b.covers), b.websites),
                b.platforms,
            ),
            b.games,
        ),
        b.popularity_primitives,
    )
}

pub open spec fn snapshot_ops(s: StoreV, b: SnapshotV) -> Seq<OpV> {
    let s1 = covers_applied(s, b.covers);
    let s2 = websites_applied(s1, b.websites);
    let s3 = platforms_applied(s2, b.platforms);
    let s4 = games_after(s3, b.games);
    covers_ops(s.covers, b.covers) + websites_ops(s1.websites, b.websites) + platforms_ops(
        s2.platforms,
        b.platforms,
    ) + games_ops(s3, b.games) + pops_ops(s4, b.popularity_primitives)
}

pub open spec fn dv_seq<T: DeepView>(s: Seq<T>) -> Seq<T::V> {
    s.map_values(|t: T| t.deep_view())
}

proof fn lemma_dv_parts<T: DeepView>(c: Vec<T>, a: Seq<T>, b: Seq<T>)
    requires
        c@ == a + b,
    ensures
        c.deep_view() =~= dv_seq(a) + dv_seq(b),
{
    assert forall|i: int| 0 <= i < c@.len() implies c.deep_view()[i] == (dv_seq(a) + dv_seq(b))[i]
        by {
        if i < a.len() {
            assert(c@[i] == a[i]);
        } else {
            assert(c@[i] == b[i - a.len()]);
        }
    }
}

proof fn lemma_dv_id<T: DeepView>(c: Vec<T>)
    ensures
        c.deep_view() =~= dv_seq(c@),
{
}

/// Apply one full snapshot in the fixed dependency order. The write log is
/// the concatenation of the per-entity logs, in execution order.
pub fn import_snapshot(store: &mut Store, snapshot: &Snapshot) -> (ops: Vec<WriteOp>)
    requires
        old(store).wf(),
    ensures
        final(store).wf(),
        final(store)@ == snapshot_after(old(store)@, snapshot@),
        ops.deep_view() == snapshot_ops(old(store)@, snapshot@),
{
    let ghost s0 = store@;
    let mut ops = insert_covers(store, &snapshot.covers);
    let mut ops_w = insert_websites(store, &snapshot.websites);
    let mut ops_p = insert_platforms(store, &snapshot.platforms);
    let mut ops_g = insert_games(store, &snapshot.games);
    let mut ops_pp = insert_popularity_primitives(store, &snapshot.popularity_primitives);
    let ghost d1 = ops.deep_view();
    let ghost d2 = ops_w.deep_view();
    let ghost d3 = ops_p.deep_view();
    let ghost d4 = ops_g.deep_view();
    let ghost d5 = ops_pp.deep_view();
    proof {
        lemma_dv_id(ops);
        lemma_dv_id(ops_w);
        lemma_dv_id(ops_p);
        lemma_dv_id(ops_g);
        lemma_dv_id(ops_pp);
    }
    let ghost a1 = ops@;
    let ghost a2 = ops_w@;
    let ghost a3 = ops_p@;
    let ghost a4 = ops_g@;
    let ghost a5 = ops_pp@;
    ops.append(&mut ops_w);
    proof {
        lemma_dv_parts(ops, a1, a2);
    }
    let ghost a12 = ops@;
    ops.append(&mut ops_p);
    proof {
        lemma_dv_parts(ops, a12, a3);
    }
    let ghost a123 = ops@;
    ops.append(&mut ops_g);
    proof {
        lemma_dv_parts(ops, a123, a4);
    }
    let ghost a1234 = ops@;
    ops.append(&mut ops_pp);
    proof {
        lemma_dv_parts(ops, a1234, a5);
        assert(dv_seq(a12) =~= dv_seq(a1) + dv_seq(a2));
        assert(dv_seq(a123) =~= dv_seq(a12) + dv_seq(a3));
        assert(dv_seq(a1234) =~= dv_seq(a123) + dv_seq(a4));
        assert(ops.deep_view() =~= d1 + d2 + d3 + d4 + d5);
        assert(ops.deep_view() == snapshot_ops(s0, snapshot@));
    }
    ops
}


} // verus!
