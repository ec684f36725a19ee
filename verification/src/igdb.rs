use vstd::prelude::*;

use crate::text::{append_all, chars_of, split_on};

verus! {

// The catalog query layer's compute core: the shape rows are returned in,
// the column list the queries share, and the parsing of the id lists that
// arrive as comma-separated text.

/// One game as the catalog queries return it. The rating is carried as the
/// raw bits of the upstream value.
#[derive(Debug, Clone)]
pub struct GameInfo {
    pub id: i32,
    pub title: String,
    pub cover_image_id: Option<String>,
    pub websites: Option<Vec<String>>,
    pub similar_games: Option<Vec<i32>>,
    pub category: i32,
    pub version_parent: Option<i32>,
    pub total_rating: Option<u32>,
}

pub open spec fn view_string_opt(o: Option<String>) -> Option<Seq<char>> {
    match o {
        Some(s) => Some(s@),
        None => None,
    }
}

pub open spec fn view_strings_opt(o: Option<Vec<String>>) -> Option<Seq<Seq<char>>> {
    match o {
        Some(v) => Some(v.deep_view()),
        None => None,
    }
}

pub open spec fn view_ids_opt(o: Option<Vec<i32>>) -> Option<Seq<i32>> {
    match o {
        Some(v) => Some(v@),
        None => None,
    }
}

pub ghost struct GameInfoV {
    pub id: i32,
    pub title: Seq<char>,
    pub cover_image_id: Option<Seq<char>>,
    pub websites: Option<Seq<Seq<char>>>,
    pub similar_games: Option<Seq<i32>>,
    pub category: i32,
    pub version_parent: Option<i32>,
    pub total_rating: Option<u32>,
}

impl View for GameInfo {
    type V = GameInfoV;

    open spec fn view(&self) -> GameInfoV {
        GameInfoV {
            id: self.id,
            title: self.title@,
            cover_image_id: view_string_opt(self.cover_image_id),
            websites: view_strings_opt(self.websites),
            similar_games: view_ids_opt(self.similar_games),
            category: self.category,
            version_parent: self.version_parent,
            total_rating: self.total_rating,
        }
    }
}

impl DeepView for GameInfo {
    type V = GameInfoV;

    open spec fn deep_view(&self) -> GameInfoV {
        self.view()
    }
}

/// The select list and joins every game query shares.
pub fn game_info_columns() -> (r: &'static str) {
    "g.id, g.name, c.image_id, GROUP_CONCAT(w.url, ',') websites, GROUP_CONCAT(sg.similar_game_id, ',') similar_game_ids, g.category, g.version_parent, total_rating FROM games g LEFT JOIN covers c ON g.cover_id = c.id LEFT JOIN game_websites gw ON g.id = gw.game_id LEFT JOIN websites w ON gw.website_id = w.id LEFT JOIN similar_games sg ON sg.game_id = g.id LEFT JOIN game_platforms gp ON g.id = gp.game_id LEFT JOIN platforms p ON p.id = gp.platform_id LEFT JOIN popularity_primitives pp ON g.id = pp.game_id"
}

/// An ASCII space, tab or line break.
pub open spec fn is_space(c: char) -> bool {
    c == ' ' || c == '\t' || c == '\n' || c == '\r'
}

/// A decimal digit.
pub open spec fn is_digit(c: char) -> bool {
    48 <= c as u32 && c as u32 <= 57
}

pub open spec fn digit_val(c: char) -> int {
    c as u32 - 48
}

pub open spec fn all_digits(s: Seq<char>) -> bool {
    forall|i: int| 0 <= i < s.len() ==> is_digit(#[trigger] s[i])
}

/// The number a digit string stands for.
pub open spec fn spec_digits_val(s: Seq<char>) -> int
    decreases s.len(),
{
    if s.len() == 0 {
        0
    } else {
        spec_digits_val(s.drop_last()) * 10 + digit_val(s.last())
    }
}

/// `s` with leading spaces removed.
pub open spec fn spec_trim_front(s: Seq<char>) -> Seq<char>
    decreases s.len(),
{
    if s.len() > 0 && is_space(s[0]) {
        spec_trim_front(s.drop_first())
    } else {
        s
    }
}

/// `s` with trailing spaces removed.
pub open spec fn spec_trim_back(s: Seq<char>) -> Seq<char>
    decreases s.len(),
{
    if s.len() > 0 && is_space(s.last()) {
        spec_trim_back(s.drop_last())
    } else {
        s
    }
}

pub open spec fn spec_trim(s: Seq<char>) -> Seq<char> {
    spec_trim_back(spec_trim_front(s))
}

/// What a piece of text denotes as a 32-bit integer: an optional sign, then
/// digits, with the value in range; anything else denotes nothing.
pub open spec fn spec_parse_i32(s: Seq<char>) -> Option<i32> {
    if s.len() >= 1 && (s[0] == '-' || s[0] == '+') {
        let ds = s.drop_first();
        if ds.len() >= 1 && all_digits(ds) {
            if s[0] == '-' {
                if -spec_digits_val(ds) >= i32::MIN {
                    Some((-spec_digits_val(ds)) as i32)
                } else {
                    None
                }
            } else {
                if spec_digits_val(ds) <= i32::MAX {
                    Some(spec_digits_val(ds) as i32)
                } else {
                    None
                }
            }
        } else {
            None
        }
    } else if s.len() >= 1 && all_digits(s) {
        if spec_digits_val(s) <= i32::MAX {
            Some(spec_digits_val(s) as i32)
        } else {
            None
        }
    } else {
        None
    }
}

proof fn lemma_digits_val_nonneg(s: Seq<char>)
    requires
        all_digits(s),
    ensures
        spec_digits_val(s) >= 0,
    decreases s.len(),
{
    if s.len() > 0 {
        assert forall|i: int| 0 <= i < s.drop_last().len() implies is_digit(
            #[trigger] s.drop_last()[i],
        ) by {
            assert(s.drop_last()[i] == s[i]);
        }
        lemma_digits_val_nonneg(s.drop_last());
    }
}

/// The value of the digit string `s`, saturated at `cap`.
fn digits_val_capped(s: &Vec<char>, from: usize, cap: i64) -> (r: Option<i64>)
    requires
        from <= s@.len(),
        0x8000_0000 <= cap <= 0x1_0000_0000,
    ensures
        match r {
            Some(v) => 0 <= v && all_digits(s@.subrange(from as int, s@.len() as int)) && v == (
            if spec_digits_val(s@.subrange(from as int, s@.len() as int)) <= cap {
                spec_digits_val(s@.subrange(from as int, s@.len() as int))
            } else {
                cap as int
            }),
            None => !all_digits(s@.subrange(from as int, s@.len() as int)),
        },
{
    let ghost whole = s@.subrange(from as int, s@.len() as int);
    let mut acc: i64 = 0;
    let mut i: usize = from;
    proof {
        assert(s@.subrange(from as int, from as int) =~= Seq::<char>::empty());
    }
    while i < s.len()
        invariant
            from <= i <= s@.len(),
            whole == s@.subrange(from as int, s@.len() as int),
            0x8000_0000 <= cap <= 0x1_0000_0000,
            all_digits(s@.subrange(from as int, i as int)),
            0 <= acc <= cap,
            acc == (if spec_digits_val(s@.subrange(from as int, i as int)) <= cap {
                spec_digits_val(s@.subrange(from as int, i as int))
            } else {
                cap as int
            }),
        decreases s@.len() - i,
    {
        let ghost prefix = s@.subrange(from as int, i as int);
        let ghost prefix1 = s@.subrange(from as int, i + 1 as int);
        let c = s[i];
        let cu = c as u32;
        if cu < 48 || cu > 57 {
            proof {
                assert(whole[i - from] == s@[i as int]);
                assert(!is_digit(s@[i as int]));
            }
            return None;
        }
        let d = (cu - 48) as i64;
        proof {
            assert(is_digit(s@[i as int]));
            assert(d == digit_val(s@[i as int]));
        }
        let wide = acc * 10 + d;
        acc = if wide > cap {
            cap
        } else {
            wide
        };
        proof {
            assert(prefix1.drop_last() =~= prefix);
            assert(prefix1.last() == s@[i as int]);
            let v0 = spec_digits_val(prefix);
            let v1 = spec_digits_val(prefix1);
            assert(v1 == v0 * 10 + digit_val(s@[i as int]));
            lemma_digits_val_nonneg(prefix);
            if v0 > cap {
                assert(v1 >= v0 * 10) by (nonlinear_arith)
                    requires
                        v0 >= 0,
                        v1 == v0 * 10 + digit_val(s@[i as int]),
                        digit_val(s@[i as int]) >= 0,
                ;
                assert(v0 * 10 >= v0) by (nonlinear_arith)
                    requires
                        v0 >= 0,
                ;
                assert(v1 > cap);
            }
        }
        i += 1;
    }
    proof {
        assert(s@.subrange(from as int, s@.len() as int) =~= whole);
    }
    Some(acc)
}

/// The 32-bit integer a piece of text denotes, if it denotes one.
pub fn parse_i32(s: &Vec<char>) -> (r: Option<i32>)
    ensures
        r == spec_parse_i32(s@),
{
    if s.len() == 0 {
        return None;
    }
    let c0 = s[0];
    let negative = c0 == '-';
    let signed = negative || c0 == '+';
    let start: usize = if signed {
        1
    } else {
        0
    };
    if s.len() == start {
        proof {
            assert(s@.drop_first().len() == 0);
        }
        return None;
    }
    let cap: i64 = 0x8000_0001;
    let digits = digits_val_capped(s, start, cap);
    proof {
        if signed {
            assert(s@.drop_first() =~= s@.subrange(1, s@.len() as int));
        } else {
            assert(s@.subrange(0, s@.len() as int) =~= s@);
        }
    }
    match digits {
        None => None,
        Some(v) => {
            if negative {
                if v <= 0x8000_0000 {
                    Some((-v) as i32)
                } else {
                    None
                }
            } else {
                if v <= 0x7fff_ffff {
                    Some(v as i32)
                } else {
                    None
                }
            }
        },
    }
}

/// `s` with surrounding spaces removed.
pub fn trim_spaces(s: &Vec<char>) -> (r: Vec<char>)
    ensures
        r@ == spec_trim(s@),
{
    let mut from: usize = 0;
    proof {
        assert(s@.subrange(0, s@.len() as int) =~= s@);
    }
    while from < s.len() && is_space_exec(s[from])
        invariant
            from <= s@.len(),
            spec_trim_front(s@) == spec_trim_front(s@.subrange(from as int, s@.len() as int)),
        decreases s@.len() - from,
    {
        proof {
            let cur = s@.subrange(from as int, s@.len() as int);
            let next = s@.subrange(from + 1 as int, s@.len() as int);
            assert(cur[0] == s@[from as int]);
            assert(cur.drop_first() =~= next);
        }
        from += 1;
    }
    let mut to: usize = s.len();
    proof {
        let cur = s@.subrange(from as int, s@.len() as int);
        if from < s@.len() {
            assert(cur[0] == s@[from as int]);
        }
        assert(spec_trim_front(s@) == cur);
    }
    while to > from && is_space_exec(s[to - 1])
        invariant
            from <= to <= s@.len(),
            spec_trim_back(s@.subrange(from as int, s@.len() as int)) == spec_trim_back(
                s@.subrange(from as int, to as int),
            ),
        decreases to,
    {
        proof {
            let cur = s@.subrange(from as int, to as int);
            let next = s@.subrange(from as int, to - 1 as int);
            assert(cur.last() == s@[to - 1 as int]);
            assert(cur.drop_last() =~= next);
        }
        to -= 1;
    }
    let mut r: Vec<char> = Vec::new();
    let mut i: usize = from;
    while i < to
        invariant
            from <= i <= to <= s@.len(),
            r@ =~= s@.subrange(from as int, i as int),
        decreases to - i,
    {
        r.push(s[i]);
        i += 1;
    }
    proof {
        let cur = s@.subrange(from as int, to as int);
        if from < to {
            assert(cur.last() == s@[to - 1 as int]);
        }
        assert(spec_trim_back(s@.subrange(from as int, s@.len() as int)) == cur);
        assert(r@ =~= cur);
    }
    r
}

fn is_space_exec(c: char) -> (r: bool)
    ensures
        r == is_space(c),
{
    c == ' ' || c == '\t' || c == '\n' || c == '\r'
}

/// What one comma-separated piece contributes to an id list: its trimmed
/// text parsed as an integer, or zero where it parses as none.
pub open spec fn id_of_piece(piece: Seq<char>) -> i32 {
    match spec_parse_i32(spec_trim(piece)) {
        Some(v) => v,
        None => 0,
    }
}

/// The id list a brace-wrapped, comma-separated text denotes: nothing for
/// an empty text, else one id per piece, with zero standing in for a piece
/// that is no number.
pub open spec fn spec_id_list(s: Seq<char>) -> Option<Seq<i32>> {
    let inner = strip_braces(s);
    if inner.len() == 0 {
        None
    } else {
        Some(crate::text::spec_split(inner, ',').map_values(|p: Seq<char>| id_of_piece(p)))
    }
}

/// `s` without one leading `{` and one trailing `}`.
pub open spec fn strip_braces(s: Seq<char>) -> Seq<char> {
    let a = if s.len() > 0 && s[0] == '{' {
        s.drop_first()
    } else {
        s
    };
    if a.len() > 0 && a.last() == '}' {
        a.drop_last()
    } else {
        a
    }
}

fn strip_braces_exec(s: &Vec<char>) -> (r: Vec<char>)
    ensures
        r@ == strip_braces(s@),
{
    let from: usize = if s.len() > 0 && s[0] == '{' {
        1
    } else {
        0
    };
    let to: usize = if s.len() > from && s[s.len() - 1] == '}' {
        s.len() - 1
    } else {
        s.len()
    };
    let mut r: Vec<char> = Vec::new();
    let mut i: usize = from;
    while i < to
        invariant
            from <= i <= to <= s@.len(),
            r@ =~= s@.subrange(from as int, i as int),
        decreases to - i,
    {
        r.push(s[i]);
        i += 1;
    }
    proof {
        let ghost a = if s@.len() > 0 && s@[0] == '{' {
            s@.drop_first()
        } else {
            s@
        };
        if s@.len() > 0 && s@[0] == '{' {
            assert(a =~= s@.subrange(1, s@.len() as int));
        }
        assert(r@ =~= strip_braces(s@));
    }
    r
}

/// The id list a text denotes, as the snapshot decoder hands lists over:
/// `None` for an empty list, else the ids between the commas, a piece that
/// is no number standing as zero.
pub fn parse_id_list(s: &Vec<char>) -> (r: Option<Vec<i32>>)
    ensures
        match r {
            Some(ids) => spec_id_list(s@) == Some(ids@),
            None => spec_id_list(s@) is None,
        },
{
    let inner = strip_braces_exec(s);
    if inner.len() == 0 {
        return None;
    }
    let pieces = split_on(&inner, ',');
    let mut ids: Vec<i32> = Vec::new();
    let mut i: usize = 0;
    while i < pieces.len()
        invariant
            i <= pieces@.len(),
            ids@ =~= pieces.deep_view().subrange(0, i as int).map_values(
                |p: Seq<char>| id_of_piece(p),
            ),
        decreases pieces@.len() - i,
    {
        let trimmed = trim_spaces(&pieces[i]);
        let id = match parse_i32(&trimmed) {
            Some(v) => v,
            None => 0,
        };
        ids.push(id);
        proof {
            assert(pieces.deep_view()[i as int] =~= pieces@[i as int]@);
            assert(id == id_of_piece(pieces.deep_view()[i as int]));
            let prefix = pieces.deep_view().subrange(0, i as int);
            let prefix1 = pieces.deep_view().subrange(0, i + 1 as int);
            assert(prefix1.drop_last() =~= prefix);
            assert(prefix1.map_values(|p: Seq<char>| id_of_piece(p)) =~= prefix.map_values(
                |p: Seq<char>| id_of_piece(p),
            ).push(id_of_piece(prefix1.last())));
        }
        i += 1;
    }
    proof {
        assert(pieces.deep_view().subrange(0, pieces@.len() as int) =~= pieces.deep_view());
    }
    Some(ids)
}

/// Each filter value quoted, the quoted values joined with commas, as the
/// log queries embed them.
pub open spec fn spec_quote_join(ls: Seq<Seq<char>>) -> Seq<char>
    decreases ls.len(),
{
    if ls.len() == 0 {
        seq![]
    } else if ls.len() == 1 {
        seq!['\''] + ls[0] + seq!['\'']
    } else {
        seq!['\''] + ls[0] + seq!['\''] + seq![','] + spec_quote_join(ls.drop_first())
    }
}

proof fn lemma_quote_join_step(ls: Seq<Seq<char>>, i: int)
    requires
        ls.len() == i + 1,
        i >= 1,
    ensures
        spec_quote_join(ls) == spec_quote_join(ls.subrange(0, i)) + seq![','] + seq!['\''] + ls[i]
            + seq!['\''],
    decreases i,
{
    if i == 1 {
        assert(ls.drop_first() =~= seq![ls[1]]);
        assert(ls.subrange(0, 1) =~= seq![ls[0]]);
        assert(spec_quote_join(ls.drop_first()) == seq!['\''] + ls[1] + seq!['\'']);
        assert(spec_quote_join(ls.subrange(0, 1)) == seq!['\''] + ls[0] + seq!['\'']);
        assert(spec_quote_join(ls) =~= spec_quote_join(ls.subrange(0, 1)) + seq![','] + seq!['\'']
            + ls[1] + seq!['\'']);
    } else {
        lemma_quote_join_step(ls.drop_first(), i - 1);
        assert(ls.drop_first().subrange(0, i - 1) =~= ls.subrange(0, i).drop_first());
        assert(ls.drop_first()[i - 1] == ls[i]);
        assert(ls.subrange(0, i).len() == i && i >= 2);
        assert(ls.subrange(0, i)[0] == ls[0]);
        assert(spec_quote_join(ls.subrange(0, i)) == seq!['\''] + ls.subrange(0, i)[0]
            + seq!['\''] + seq![','] + spec_quote_join(ls.subrange(0, i).drop_first()));
        assert(spec_quote_join(ls) =~= spec_quote_join(ls.subrange(0, i)) + seq![','] + seq!['\'']
            + ls[i] + seq!['\'']);
    }
}

/// The filter values quoted and joined with commas.
pub fn quote_filter(filter: &Vec<String>) -> (r: Vec<char>)
    ensures
        r@ == spec_quote_join(filter.deep_view()),
{
    let mut r: Vec<char> = Vec::new();
    let n = filter.len();
    let mut i: usize = 0;
    while i < n
        invariant
            n == filter@.len(),
            i <= n,
            i == 0 ==> r@.len() == 0,
            i > 0 ==> r@ == spec_quote_join(filter.deep_view().subrange(0, i as int)),
        decreases n - i,
    {
        let ghost pre = r@;
        if i > 0 {
            r.push(',');
        }
        r.push('\'');
        let chars = chars_of(filter[i].as_str());
        let mut k: usize = 0;
        while k < chars.len()
            invariant
                k <= chars@.len(),
                r@ =~= (if i > 0 {
                    pre + seq![',']
                } else {
                    pre
                }) + seq!['\''] + chars@.subrange(0, k as int),
            decreases chars@.len() - k,
        {
            r.push(chars[k]);
            k += 1;
        }
        r.push('\'');
        proof {
            assert(chars@.subrange(0, chars@.len() as int) =~= chars@);
            assert(filter.deep_view()[i as int] == chars@);
            if i == 0 {
                assert(filter.deep_view().subrange(0, 1) =~= seq![filter.deep_view()[0]]);
                assert(r@ =~= spec_quote_join(filter.deep_view().subrange(0, 1)));
            } else {
                lemma_quote_join_step(filter.deep_view().subrange(0, i + 1 as int), i as int);
                assert(filter.deep_view().subrange(0, i + 1 as int).subrange(0, i as int)
                    =~= filter.deep_view().subrange(0, i as int));
                assert(filter.deep_view().subrange(0, i + 1 as int)[i as int] == filter.deep_view()[i as int]);
                assert(r@ =~= spec_quote_join(filter.deep_view().subrange(0, i + 1 as int)));
            }
        }
        i += 1;
    }
    proof {
        if n > 0 {
            assert(filter.deep_view().subrange(0, n as int) =~= filter.deep_view());
        }
    }
    r
}

// ---------------------------------------------------------------- rendering

pub open spec fn digit_char(d: int) -> char {
    if d == 0 {
        '0'
    } else if d == 1 {
        '1'
    } else if d == 2 {
        '2'
    } else if d == 3 {
        '3'
    } else if d == 4 {
        '4'
    } else if d == 5 {
        '5'
    } else if d == 6 {
        '6'
    } else if d == 7 {
        '7'
    } else if d == 8 {
        '8'
    } else {
        '9'
    }
}

/// The decimal text of a number, most significant digit first.
pub open spec fn spec_nat_text(n: int) -> Seq<char>
    decreases n,
    when n >= 0
{
    if n <= 9 {
        seq![digit_char(n)]
    } else {
        spec_nat_text(n / 10).push(digit_char(n % 10))
    }
}

/// The decimal text of a signed number.
pub open spec fn spec_i32_text(n: int) -> Seq<char> {
    if n < 0 {
        seq!['-'] + spec_nat_text(-n)
    } else {
        spec_nat_text(n)
    }
}

fn digit_char_exec(d: u64) -> (r: char)
    requires
        d <= 9,
    ensures
        r == digit_char(d as int),
{
    if d == 0 {
        '0'
    } else if d == 1 {
        '1'
    } else if d == 2 {
        '2'
    } else if d == 3 {
        '3'
    } else if d == 4 {
        '4'
    } else if d == 5 {
        '5'
    } else if d == 6 {
        '6'
    } else if d == 7 {
        '7'
    } else if d == 8 {
        '8'
    } else {
        '9'
    }
}

/// The decimal text of `n`.
pub fn u64_text(n: u64) -> (r: Vec<char>)
    ensures
        r@ == spec_nat_text(n as int),
{
    let mut digits: Vec<char> = Vec::new();
    let d0 = digit_char_exec(n % 10);
    digits.push(d0);
    let mut m = n / 10;
    proof {
        if n <= 9 {
            assert(digits@.reverse() =~= seq![digit_char(n as int)]);
        } else {
            assert(digits@.reverse() =~= seq![digit_char(n as int % 10)]);
            assert(spec_nat_text(n as int) =~= spec_nat_text(n as int / 10) + seq![
                digit_char(n as int % 10),
            ]);
        }
        assert(spec_nat_text(n as int) == (if m > 0 {
            spec_nat_text(m as int)
        } else {
            Seq::<char>::empty()
        }) + digits@.reverse());
    }
    while m > 0
        invariant
            spec_nat_text(n as int) == (if m > 0 {
                spec_nat_text(m as int)
            } else {
                Seq::<char>::empty()
            }) + digits@.reverse(),
        decreases m,
    {
        let ghost dpre = digits@;
        let ghost m0 = m;
        let d = digit_char_exec(m % 10);
        digits.push(d);
        m = m / 10;
        proof {
            assert(digits@.reverse() =~= seq![d] + dpre.reverse());
            if m0 <= 9 {
                assert(spec_nat_text(m0 as int) =~= seq![d]);
            } else {
                assert(spec_nat_text(m0 as int) =~= spec_nat_text(m0 as int / 10) + seq![d]);
            }
            assert(spec_nat_text(n as int) == (if m > 0 {
                spec_nat_text(m as int)
            } else {
                Seq::<char>::empty()
            }) + digits@.reverse());
        }
    }
    let k = digits.len();
    let mut r: Vec<char> = Vec::new();
    let mut i: usize = 0;
    while i < k
        invariant
            k == digits@.len(),
            k >= 1,
            i <= k,
            r@ =~= digits@.reverse().subrange(0, i as int),
        decreases k - i,
    {
        r.push(digits[k - 1 - i]);
        i += 1;
    }
    proof {
        assert(r@ =~= digits@.reverse());
        assert(Seq::<char>::empty() + digits@.reverse() =~= digits@.reverse());
    }
    r
}

/// The decimal text of `n`, with a leading minus sign when it is negative.
pub fn i32_text(n: i32) -> (r: Vec<char>)
    ensures
        r@ == spec_i32_text(n as int),
{
    let wide = n as i64;
    if wide < 0 {
        let mut r: Vec<char> = Vec::new();
        r.push('-');
        let mag = u64_text((-wide) as u64);
        let ghost pre = r@;
        append_all(&mut r, &mag);
        proof {
            assert(r@ =~= seq!['-'] + spec_nat_text(-(n as int)));
        }
        r
    } else {
        u64_text(n as u64)
    }
}

/// The ids joined with commas, as the game queries embed them.
pub open spec fn spec_ids_text(ids: Seq<i32>) -> Seq<char>
    decreases ids.len(),
{
    if ids.len() == 0 {
        seq![]
    } else if ids.len() == 1 {
        spec_i32_text(ids[0] as int)
    } else {
        spec_i32_text(ids[0] as int) + seq![','] + spec_ids_text(ids.drop_first())
    }
}

proof fn lemma_ids_text_step(ids: Seq<i32>, i: int)
    requires
        ids.len() == i + 1,
        i >= 1,
    ensures
        spec_ids_text(ids) == spec_ids_text(ids.subrange(0, i)) + seq![','] + spec_i32_text(
            ids[i] as int,
        ),
    decreases i,
{
    if i == 1 {
        assert(ids.drop_first() =~= seq![ids[1]]);
        assert(ids.subrange(0, 1) =~= seq![ids[0]]);
        assert(spec_ids_text(ids.drop_first()) == spec_i32_text(ids[1] as int));
        assert(spec_ids_text(ids.subrange(0, 1)) == spec_i32_text(ids[0] as int));
        assert(spec_ids_text(ids) =~= spec_ids_text(ids.subrange(0, 1)) + seq![',']
            + spec_i32_text(ids[1] as int));
    } else {
        lemma_ids_text_step(ids.drop_first(), i - 1);
        assert(ids.drop_first().subrange(0, i - 1) =~= ids.subrange(0, i).drop_first());
        assert(ids.drop_first()[i - 1] == ids[i]);
        assert(ids.subrange(0, i)[0] == ids[0]);
        assert(spec_ids_text(ids.subrange(0, i)) == spec_i32_text(ids[0] as int) + seq![',']
            + spec_ids_text(ids.subrange(0, i).drop_first()));
        assert(spec_ids_text(ids) =~= spec_ids_text(ids.subrange(0, i)) + seq![',']
            + spec_i32_text(ids[i] as int));
    }
}

/// The ids joined with commas.
pub fn join_ids(ids: &Vec<i32>) -> (r: Vec<char>)
    ensures
        r@ == spec_ids_text(ids@),
{
    let mut r: Vec<char> = Vec::new();
    let n = ids.len();
    let mut i: usize = 0;
    while i < n
        invariant
            n == ids@.len(),
            i <= n,
            i == 0 ==> r@.len() == 0,
            i > 0 ==> r@ == spec_ids_text(ids@.subrange(0, i as int)),
        decreases n - i,
    {
        if i > 0 {
            r.push(',');
        }
        let ghost pre = r@;
        let digits = i32_text(ids[i]);
        append_all(&mut r, &digits);
        proof {
            if i == 0 {
                assert(ids@.subrange(0, 1) =~= seq![ids@[0]]);
                assert(r@ =~= spec_ids_text(ids@.subrange(0, 1)));
            } else {
                lemma_ids_text_step(ids@.subrange(0, i + 1 as int), i as int);
                assert(ids@.subrange(0, i + 1 as int).subrange(0, i as int) =~= ids@.subrange(
                    0,
                    i as int,
                ));
                assert(ids@.subrange(0, i + 1 as int)[i as int] == ids@[i as int]);
                assert(r@ =~= spec_ids_text(ids@.subrange(0, i + 1 as int)));
            }
        }
        i += 1;
    }
    proof {
        if n > 0 {
            assert(ids@.subrange(0, n as int) =~= ids@);
        }
    }
    r
}

} // verus!
