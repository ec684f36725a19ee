use vstd::prelude::*;

verus! {

// Remote snapshot records, one struct per entity type. The primary keys are
// the upstream ids. Ratings and popularity values arrive as IEEE bit
// patterns; the engine never does arithmetic on them, it only compares them,
// so they are carried as their raw `u32` bits.

/// Snapshot record for a cover image.
#[derive(Debug, Clone)]
pub struct Cover {
    pub id: i32,
    pub image_id: String,
}

/// Snapshot record for a website.
#[derive(Debug, Clone)]
pub struct Website {
    pub id: i32,
    pub url: String,
}

/// Snapshot record for a platform.
#[derive(Debug, Clone)]
pub struct Platform {
    pub id: i32,
    pub name: String,
    pub category: Option<i32>,
}

/// Snapshot record for a game. The three id-list fields distinguish absent
/// (`None`: the snapshot did not report that relation, existing edges are
/// kept) from present but empty (`Some` of an empty list: all edges of that
/// kind are removed).
#[derive(Debug, Clone)]
pub struct Game {
    pub id: i32,
    pub name: String,
    pub cover_id: Option<i32>,
    pub website_ids: Option<Vec<i32>>,
    pub similar_games: Option<Vec<i32>>,
    pub category: i32,
    pub version_parent: Option<i32>,
    /// Raw bits of the upstream rating, `None` when the snapshot has none.
    pub total_rating: Option<u32>,
    pub platform_ids: Option<Vec<i32>>,
}

/// Snapshot record for a popularity score. `game_id` is a weak reference:
/// a record whose game is unknown is dropped, not an error.
#[derive(Debug, Clone)]
pub struct PopularityPrimitive {
    pub id: i32,
    pub game_id: i32,
    pub popularity_type: i32,
    /// Raw bits of the upstream score.
    pub value: u32,
}

// Mathematical values of the records.

pub ghost struct CoverV {
    pub id: i32,
    pub image_id: Seq<char>,
}

pub ghost struct WebsiteV {
    pub id: i32,
    pub url: Seq<char>,
}

pub ghost struct PlatformV {
    pub id: i32,
    pub name: Seq<char>,
    pub category: Option<i32>,
}

pub ghost struct GameV {
    pub id: i32,
    pub name: Seq<char>,
    pub cover_id: Option<i32>,
    pub website_ids: Option<Seq<i32>>,
    pub similar_games: Option<Seq<i32>>,
    pub category: i32,
    pub version_parent: Option<i32>,
    pub total_rating: Option<u32>,
    pub platform_ids: Option<Seq<i32>>,
}

pub ghost struct PopularityPrimitiveV {
    pub id: i32,
    pub game_id: i32,
    pub popularity_type: i32,
    pub value: u32,
}

pub open spec fn view_ids(o: Option<Vec<i32>>) -> Option<Seq<i32>> {
    match o {
        Some(v) => Some(v@),
        None => None,
    }
}

impl View for Cover {
    type V = CoverV;

    open spec fn view(&self) -> CoverV {
        CoverV { id: self.id, image_id: self.image_id@ }
    }
}

impl DeepView for Cover {
    type V = CoverV;

    open spec fn deep_view(&self) -> CoverV {
        self.view()
    }
}

impl View for Website {
    type V = WebsiteV;

    open spec fn view(&self) -> WebsiteV {
        WebsiteV { id: self.id, url: self.url@ }
    }
}

impl DeepView for Website {
    type V = WebsiteV;

    open spec fn deep_view(&self) -> WebsiteV {
        self.view()
    }
}

impl View for Platform {
    type V = PlatformV;

    open spec fn view(&self) -> PlatformV {
        PlatformV { id: self.id, name: self.name@, category: self.category }
    }
}

impl DeepView for Platform {
    type V = PlatformV;

    open spec fn deep_view(&self) -> PlatformV {
        self.view()
    }
}

impl View for Game {
    type V = GameV;

    open spec fn view(&self) -> GameV {
        GameV {
            id: self.id,
            name: self.name@,
            cover_id: self.cover_id,
            website_ids: view_ids(self.website_ids),
            similar_games: view_ids(self.similar_games),
            category: self.category,
            version_parent: self.version_parent,
            total_rating: self.total_rating,
            platform_ids: view_ids(self.platform_ids),
        }
    }
}

impl DeepView for Game {
    type V = GameV;

    open spec fn deep_view(&self) -> GameV {
        self.view()
    }
}

impl View for PopularityPrimitive {
    type V = PopularityPrimitiveV;

    open spec fn view(&self) -> PopularityPrimitiveV {
        PopularityPrimitiveV {
            id: self.id,
            game_id: self.game_id,
            popularity_type: self.popularity_type,
            value: self.value,
        }
    }
}

impl DeepView for PopularityPrimitive {
    type V = PopularityPrimitiveV;

    open spec fn deep_view(&self) -> PopularityPrimitiveV {
        self.view()
    }
}

// Rows as the local store keeps them. Game rows drop the id-list fields:
// relations live in the edge tables, and the stored cover reference is the
// resolved one (dangling references are stored as `None`).

/// Stored row of the games table, keyed by the game id.
#[derive(Debug, Clone)]
pub struct GameRow {
    pub name: String,
    pub cover_id: Option<i32>,
    pub category: i32,
    pub version_parent: Option<i32>,
    pub total_rating: Option<u32>,
}

pub ghost struct GameRowV {
    pub name: Seq<char>,
    pub cover_id: Option<i32>,
    pub category: i32,
    pub version_parent: Option<i32>,
    pub total_rating: Option<u32>,
}

impl View for GameRow {
    type V = GameRowV;

    open spec fn view(&self) -> GameRowV {
        GameRowV {
            name: self.name@,
            cover_id: self.cover_id,
            category: self.category,
            version_parent: self.version_parent,
            total_rating: self.total_rating,
        }
    }
}

/// Stored row of the platforms table, keyed by the platform id.
#[derive(Debug, Clone)]
pub struct PlatformRow {
    pub name: String,
    pub category: Option<i32>,
}

pub ghost struct PlatformRowV {
    pub name: Seq<char>,
    pub category: Option<i32>,
}

impl View for PlatformRow {
    type V = PlatformRowV;

    open spec fn view(&self) -> PlatformRowV {
        PlatformRowV { name: self.name@, category: self.category }
    }
}

/// Stored row of the popularity table, keyed by the record id.
#[derive(Debug, Clone, Copy)]
pub struct PopularityRow {
    pub game_id: i32,
    pub popularity_type: i32,
    pub value: u32,
}

pub ghost struct PopularityRowV {
    pub game_id: i32,
    pub popularity_type: i32,
    pub value: u32,
}

impl View for PopularityRow {
    type V = PopularityRowV;

    open spec fn view(&self) -> PopularityRowV {
        PopularityRowV {
            game_id: self.game_id,
            popularity_type: self.popularity_type,
            value: self.value,
        }
    }
}

} // verus!
