use vstd::prelude::*;

use crate::igdb::{i32_text, spec_i32_text, GameInfo, GameInfoV};
use crate::logs::{LogData, LogDataV};
use crate::text::{append_all, chars_of};

verus! {

// The Steam import's decision core: which catalog game an owned Steam game
// stands for, and what play-log row each match yields. Fetching the
// inventory and formatting the dates are the caller's business.

/// One owned game as the Steam inventory reports it.
#[derive(Debug, Clone)]
pub struct SteamGame {
    pub appid: i32,
    pub name: String,
    pub playtime_forever: i32,
    pub playtime_2weeks: Option<i32>,
    pub rtime_last_played: i32,
}

pub ghost struct SteamGameV {
    pub appid: i32,
    pub name: Seq<char>,
    pub playtime_forever: i32,
    pub playtime_2weeks: Option<i32>,
    pub rtime_last_played: i32,
}

impl View for SteamGame {
    type V = SteamGameV;

    open spec fn view(&self) -> SteamGameV {
        SteamGameV {
            appid: self.appid,
            name: self.name@,
            playtime_forever: self.playtime_forever,
            playtime_2weeks: self.playtime_2weeks,
            rtime_last_played: self.rtime_last_played,
        }
    }
}

impl DeepView for SteamGame {
    type V = SteamGameV;

    open spec fn deep_view(&self) -> SteamGameV {
        self.view()
    }
}

/// The store link under which a Steam game appears among a catalog game's
/// websites.
pub open spec fn steam_link(appid: int) -> Seq<char> {
    "https://store.steampowered.com/app/"@ + spec_i32_text(appid)
}

/// The catalog game lists `link` among its websites.
pub open spec fn game_matches(g: GameInfoV, link: Seq<char>) -> bool {
    match g.websites {
        None => false,
        Some(ws) => exists|i: int| 0 <= i < ws.len() && (#[trigger] ws[i]) == link,
    }
}

/// The first catalog game at or after `i` that lists `link`.
pub open spec fn first_match_from(games: Seq<GameInfoV>, link: Seq<char>, i: int) -> Option<int>
    decreases games.len() - i,
    when 0 <= i <= games.len()
{
    if i >= games.len() {
        None
    } else if game_matches(games[i], link) {
        Some(i)
    } else {
        first_match_from(games, link, i + 1)
    }
}

/// The status an imported game gets: never played means backlog.
pub open spec fn steam_status(playtime: int) -> Seq<char> {
    if playtime == 0 {
        "backlog"@
    } else {
        "played"@
    }
}

/// The play-log row one matched Steam game yields.
pub open spec fn steam_log(g: GameInfoV, s: SteamGameV, date: Seq<char>) -> LogDataV {
    LogDataV {
        game_id: g.id,
        start_date: date,
        end_date: date,
        rating: 0,
        notes: Seq::empty(),
        status: steam_status(s.playtime_forever as int),
        minutes_played: s.playtime_forever,
    }
}

/// The play-log rows a Steam inventory yields against the catalog: one row
/// per owned game whose store link some catalog game lists, in inventory
/// order; an owned game no catalog game lists is dropped.
pub open spec fn steam_logs(
    steam: Seq<SteamGameV>,
    games: Seq<GameInfoV>,
    dates: Seq<Seq<char>>,
) -> Seq<LogDataV>
    decreases steam.len(),
{
    if steam.len() == 0 {
        seq![]
    } else {
        let prev = steam_logs(steam.drop_last(), games, dates.drop_last());
        match first_match_from(games, steam_link(steam.last().appid as int), 0) {
            None => prev,
            Some(j) => prev.push(steam_log(games[j], steam.last(), dates.last())),
        }
    }
}

fn chars_eq(a: &Vec<char>, b: &Vec<char>) -> (r: bool)
    ensures
        r == (a@ == b@),
{
    if a.len() != b.len() {
        return false;
    }
    let mut i: usize = 0;
    while i < a.len()
        invariant
            a@.len() == b@.len(),
            i <= a@.len(),
            forall|j: int| 0 <= j < i ==> a@[j] == b@[j],
        decreases a@.len() - i,
    {
        if a[i] != b[i] {
            return false;
        }
        i += 1;
    }
    proof {
        assert(a@ =~= b@);
    }
    true
}

fn matches_link(g: &GameInfo, link: &Vec<char>) -> (r: bool)
    ensures
        r == game_matches(g@, link@),
{
    match g.websites.as_ref() {
        None => false,
        Some(ws) => {
            let mut i: usize = 0;
            while i < ws.len()
                invariant
                    g.websites is Some,
                    *ws == g.websites->0,
                    i <= ws@.len(),
                    forall|j: int| 0 <= j < i ==> #[trigger] ws.deep_view()[j] != link@,
                decreases ws@.len() - i,
            {
                let site = chars_of(ws[i].as_str());
                if chars_eq(&site, link) {
                    proof {
                        let wsd = ws.deep_view();
                        assert(g@.websites == Some(wsd));
                        assert(wsd[i as int] == ws@[i as int].deep_view());
                        assert(0 <= i < wsd.len() && wsd[i as int] == link@);
                        assert(g@.websites->0 == wsd);
                        assert((g@.websites->0)[i as int] == link@);
                        assert(game_matches(g@, link@));
                    }
                    return true;
                }
                i += 1;
            }
            proof {
                assert(g@.websites == Some(ws.deep_view()));
                if game_matches(g@, link@) {
                    let j = choose|j: int|
                        0 <= j < ws.deep_view().len() && #[trigger] ws.deep_view()[j] == link@;
                }
            }
            false
        },
    }
}

fn find_matching_game(games: &Vec<GameInfo>, link: &Vec<char>) -> (r: Option<usize>)
    ensures
        match r {
            Some(j) => j < games@.len() && first_match_from(games.deep_view(), link@, 0) == Some(
                j as int,
            ),
            None => first_match_from(games.deep_view(), link@, 0) is None,
        },
{
    let mut i: usize = 0;
    while i < games.len()
        invariant
            i <= games@.len(),
            first_match_from(games.deep_view(), link@, 0) == first_match_from(
                games.deep_view(),
                link@,
                i as int,
            ),
        decreases games@.len() - i,
    {
        if matches_link(&games[i], link) {
            proof {
                assert(games.deep_view()[i as int] == games@[i as int]@);
            }
            return Some(i);
        }
        i += 1;
    }
    None
}

/// The play-log rows an owned-games inventory yields: each owned game whose
/// store link a catalog game lists becomes one row for that game, dated by
/// the matching entry of `dates`; every other owned game is dropped.
pub fn steam_log_data(
    steam: &Vec<SteamGame>,
    games: &Vec<GameInfo>,
    dates: &Vec<String>,
) -> (r: Vec<LogData>)
    requires
        dates@.len() == steam@.len(),
    ensures
        r.deep_view() == steam_logs(steam.deep_view(), games.deep_view(), dates.deep_view()),
{
    let ghost sv = steam.deep_view();
    let ghost gv = games.deep_view();
    let ghost dv = dates.deep_view();
    let mut r: Vec<LogData> = Vec::new();
    let mut i: usize = 0;
    while i < steam.len()
        invariant
            sv == steam.deep_view(),
            gv == games.deep_view(),
            dv == dates.deep_view(),
            dv.len() == sv.len(),
            i <= sv.len(),
            r.deep_view() == steam_logs(
                sv.subrange(0, i as int),
                gv,
                dv.subrange(0, i as int),
            ),
        decreases steam@.len() - i,
    {
        let ghost dv_pre = r.deep_view();
        let s = &steam[i];
        proof {
            assert(sv[i as int] == s@);
            assert(dv[i as int] == dates@[i as int]@);
        }
        let mut link = chars_of("https://store.steampowered.com/app/");
        let digits = i32_text(s.appid);
        append_all(&mut link, &digits);
        proof {
            assert(link@ == steam_link(s@.appid as int));
        }
        match find_matching_game(games, &link) {
            None => {},
            Some(j) => {
                let date = dates[i].clone();
                let status: &str = if s.playtime_forever == 0 {
                    "backlog"
                } else {
                    "played"
                };
                let entry = LogData {
                    game_id: games[j].id,
                    start_date: date,
                    end_date: dates[i].clone(),
                    rating: 0,
                    notes: String::new(),
                    status: status.to_owned(),
                    minutes_played: s.playtime_forever,
                };
                proof {
                    assert(gv[j as int] == games@[j as int]@);
                    assert(entry@ == steam_log(gv[j as int], s@, dv[i as int]));
                }
                r.push(entry);
            },
        }
        proof {
            let prefix_s = sv.subrange(0, i as int);
            let prefix_s1 = sv.subrange(0, i + 1 as int);
            let prefix_d = dv.subrange(0, i as int);
            let prefix_d1 = dv.subrange(0, i + 1 as int);
            assert(prefix_s1.drop_last() =~= prefix_s);
            assert(prefix_d1.drop_last() =~= prefix_d);
            assert(prefix_s1.last() == sv[i as int]);
            assert(prefix_d1.last() == dv[i as int]);
            match first_match_from(gv, steam_link(sv[i as int].appid as int), 0) {
                None => {},
                Some(j) => {
                    assert(r.deep_view() =~= dv_pre.push(
                        steam_log(gv[j], sv[i as int], dv[i as int]),
                    ));
                },
            }
            assert(r.deep_view() =~= steam_logs(prefix_s1, gv, prefix_d1));
        }
        i += 1;
    }
    proof {
        assert(sv.subrange(0, steam@.len() as int) =~= sv);
        assert(dv.subrange(0, steam@.len() as int) =~= dv);
    }
    r
}

} // verus!
