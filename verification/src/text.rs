use vstd::prelude::*;

verus! {

broadcast use vstd::std_specs::vec::axiom_spec_len;

// Small text toolkit for the schema engine: find and replace of the first
// occurrence of a pattern, splitting into lines and joining them again.
// Text is carried as vectors of characters, viewed as `Seq<char>`.

/// The pattern `p` occurs in `s` at position `i`.
pub open spec fn matches_at(s: Seq<char>, p: Seq<char>, i: int) -> bool {
    0 <= i && i + p.len() <= s.len() && s.subrange(i, i + p.len() as int) == p
}

/// `s` holds `p` somewhere.
pub open spec fn contains_pat(s: Seq<char>, p: Seq<char>) -> bool {
    exists|i: int| matches_at(s, p, i)
}

/// The first position at or after `i` where `p` occurs in `s`.
pub open spec fn spec_find(s: Seq<char>, p: Seq<char>, i: int) -> Option<int>
    decreases s.len() - i,
    when 0 <= i <= s.len()
{
    if p.len() == 0 {
        Some(i)
    } else if i + p.len() > s.len() {
        None
    } else if s.subrange(i, i + p.len() as int) == p {
        Some(i)
    } else {
        spec_find(s, p, i + 1)
    }
}

pub proof fn lemma_spec_find(s: Seq<char>, p: Seq<char>, i: int)
    requires
        0 <= i <= s.len(),
    ensures
        match spec_find(s, p, i) {
            Some(j) => matches_at(s, p, j) && i <= j && forall|k: int|
                i <= k < j ==> !matches_at(s, p, k),
            None => forall|k: int| k >= i ==> !matches_at(s, p, k),
        },
    decreases s.len() - i,
{
    if p.len() == 0 {
        assert(s.subrange(i, i + p.len() as int) =~= p);
    } else if i + p.len() > s.len() {
        assert forall|k: int| k >= i implies !matches_at(s, p, k) by {}
    } else if s.subrange(i, i + p.len() as int) == p {
    } else {
        lemma_spec_find(s, p, i + 1);
    }
}

/// `s` with the first occurrence of `p` replaced by `r`; `s` itself when
/// `p` does not occur.
pub open spec fn spec_replace_first(s: Seq<char>, p: Seq<char>, r: Seq<char>) -> Seq<char> {
    match spec_find(s, p, 0) {
        Some(i) => s.subrange(0, i) + r + s.subrange(i + p.len() as int, s.len() as int),
        None => s,
    }
}

/// The first position at or after `i` where the character `d` occurs.
pub open spec fn spec_index_of(s: Seq<char>, d: char, i: int) -> Option<int>
    decreases s.len() - i,
    when 0 <= i <= s.len()
{
    if i >= s.len() {
        None
    } else if s[i] == d {
        Some(i)
    } else {
        spec_index_of(s, d, i + 1)
    }
}

pub proof fn lemma_spec_index_of(s: Seq<char>, d: char, i: int)
    requires
        0 <= i <= s.len(),
    ensures
        match spec_index_of(s, d, i) {
            Some(j) => i <= j < s.len() && s[j] == d && forall|k: int| i <= k < j ==> s[k] != d,
            None => forall|k: int| i <= k < s.len() ==> s[k] != d,
        },
    decreases s.len() - i,
{
    if i >= s.len() {
    } else if s[i] == d {
    } else {
        lemma_spec_index_of(s, d, i + 1);
    }
}

/// `s` split on the character `d`. Every occurrence separates two pieces,
/// so the pieces joined with `d` give `s` back exactly.
pub open spec fn spec_split(s: Seq<char>, d: char) -> Seq<Seq<char>>
    decreases s.len(),
{
    let found = spec_index_of(s, d, 0);
    if found is Some && 0 <= found.unwrap() < s.len() {
        seq![s.subrange(0, found.unwrap())] + spec_split(
            s.subrange(found.unwrap() + 1, s.len() as int),
            d,
        )
    } else {
        seq![s]
    }
}

/// The pieces joined with the character `d` between each two.
pub open spec fn spec_join(ls: Seq<Seq<char>>, d: char) -> Seq<char>
    decreases ls.len(),
{
    if ls.len() == 0 {
        seq![]
    } else if ls.len() == 1 {
        ls[0]
    } else {
        ls[0] + seq![d] + spec_join(ls.drop_first(), d)
    }
}

/// A split never yields an empty list of pieces, and no piece holds the
/// separator.
pub proof fn lemma_split_pieces(s: Seq<char>, d: char)
    ensures
        spec_split(s, d).len() >= 1,
        forall|i: int|
            0 <= i < spec_split(s, d).len() ==> !(#[trigger] spec_split(s, d)[i]).contains(d),
    decreases s.len(),
{
    lemma_spec_index_of(s, d, 0);
    let found = spec_index_of(s, d, 0);
    if found is Some && 0 <= found.unwrap() < s.len() {
        let j = found.unwrap();
        let head = s.subrange(0, j);
        let rest = s.subrange(j + 1, s.len() as int);
        lemma_split_pieces(rest, d);
        assert forall|i: int| 0 <= i < spec_split(s, d).len() implies !(
        #[trigger] spec_split(s, d)[i]).contains(d) by {
            if i == 0 {
                if head.contains(d) {
                    let k = choose|k: int| 0 <= k < head.len() && head[k] == d;
                    assert(s[k] == d);
                }
            } else {
                assert(spec_split(s, d)[i] == spec_split(rest, d)[i - 1]);
            }
        }
    } else {
        assert forall|i: int| 0 <= i < spec_split(s, d).len() implies !(
        #[trigger] spec_split(s, d)[i]).contains(d) by {
            if spec_split(s, d)[i].contains(d) {
                let k = choose|k: int| 0 <= k < s.len() && s[k] == d;
            }
        }
    }
}

/// Joining the pieces of a split restores the text exactly.
pub proof fn lemma_join_split(s: Seq<char>, d: char)
    ensures
        spec_join(spec_split(s, d), d) == s,
    decreases s.len(),
{
    lemma_spec_index_of(s, d, 0);
    let found = spec_index_of(s, d, 0);
    if found is Some && 0 <= found.unwrap() < s.len() {
        let j = found.unwrap();
        let head = s.subrange(0, j);
        let rest = s.subrange(j + 1, s.len() as int);
        lemma_join_split(rest, d);
        lemma_split_pieces(rest, d);
        let pieces = seq![head] + spec_split(rest, d);
        assert(spec_split(s, d) == pieces);
        assert(pieces.len() >= 2);
        assert(pieces[0] == head);
        assert(pieces.drop_first() =~= spec_split(rest, d));
        assert(spec_join(pieces, d) == head + seq![d] + rest);
        assert(head + seq![d] + rest =~= s);
    }
}

/// Splitting a join restores the pieces exactly, as long as no piece holds
/// the separator.
pub proof fn lemma_split_join(ls: Seq<Seq<char>>, d: char)
    requires
        ls.len() >= 1,
        forall|i: int| 0 <= i < ls.len() ==> !(#[trigger] ls[i]).contains(d),
    ensures
        spec_split(spec_join(ls, d), d) == ls,
    decreases ls.len(),
{
    let s = spec_join(ls, d);
    lemma_spec_index_of(s, d, 0);
    let found = spec_index_of(s, d, 0);
    if ls.len() == 1 {
        assert(s == ls[0]);
        if found is Some && 0 <= found.unwrap() < s.len() {
            assert(s[found.unwrap()] == d);
            assert(ls[0].contains(d));
        }
        assert(spec_split(s, d) =~= ls);
    } else {
        let head = ls[0];
        let tail = ls.drop_first();
        assert(s == head + seq![d] + spec_join(tail, d));
        let n = head.len() as int;
        assert(s[n] == d);
        assert forall|k: int| 0 <= k < n implies s[k] != d by {
            assert(s[k] == head[k]);
            if s[k] == d {
                assert(head.contains(d));
            }
        }
        assert(found is Some);
        let j = found.unwrap();
        assert(s[j] == d && forall|k: int| 0 <= k < j ==> s[k] != d);
        assert(j == n) by {
            if j < n {
                assert(s[j] != d);
            }
            if j > n {
                assert(s[n] != d);
            }
        }
        assert forall|i: int| 0 <= i < tail.len() implies !(#[trigger] tail[i]).contains(d) by {
            assert(tail[i] == ls[i + 1]);
        }
        lemma_split_join(tail, d);
        assert(s.subrange(0, n) =~= head);
        assert(s.subrange(n + 1, s.len() as int) =~= spec_join(tail, d));
        assert(spec_split(s, d) == seq![head] + spec_split(spec_join(tail, d), d));
        assert(seq![head] + tail =~= ls);
    }
}

/// Whether `s` holds `p` starting at `i`.
fn is_match_at(s: &Vec<char>, p: &Vec<char>, i: usize) -> (r: bool)
    requires
        i + p@.len() <= s@.len(),
    ensures
        r == matches_at(s@, p@, i as int),
{
    let n = s.len();
    let m = p.len();
    let mut k: usize = 0;
    while k < m
        invariant
            n == s@.len(),
            m == p@.len(),
            i + m <= n,
            k <= m,
            forall|t: int| 0 <= t < k ==> s@[i + t] == p@[t],
        decreases m - k,
    {
        let j = i + k;
        if s[j] != p[k] {
            proof {
                assert(s@.subrange(i as int, i + p@.len() as int)[k as int] == s@[i + k]);
                assert(s@.subrange(i as int, i + p@.len() as int) != p@);
            }
            return false;
        }
        k += 1;
    }
    proof {
        assert(s@.subrange(i as int, i + p@.len() as int) =~= p@);
    }
    true
}

/// The position of the first occurrence of `p` in `s`, if there is one.
pub fn find_pat(s: &Vec<char>, p: &Vec<char>) -> (r: Option<usize>)
    ensures
        match r {
            Some(i) => spec_find(s@, p@, 0) == Some(i as int),
            None => spec_find(s@, p@, 0) is None,
        },
{
    if p.len() == 0 {
        return Some(0);
    }
    if p.len() > s.len() {
        return None;
    }
    let n = s.len();
    let m = p.len();
    let bound = n - m;
    let mut i: usize = 0;
    while i <= bound
        invariant
            n == s@.len(),
            m == p@.len(),
            m >= 1,
            m <= n,
            bound == n - m,
            i <= bound + 1,
            spec_find(s@, p@, 0) == spec_find(s@, p@, i as int),
        decreases bound + 1 - i,
    {
        if is_match_at(s, p, i) {
            return Some(i);
        }
        i += 1;
    }
    None
}

/// `s` with the first occurrence of `p` replaced by `r`; `s` unchanged
/// when `p` does not occur.
pub fn replace_first(s: &Vec<char>, p: &Vec<char>, r: &Vec<char>) -> (out: Vec<char>)
    ensures
        out@ == spec_replace_first(s@, p@, r@),
{
    match find_pat(s, p) {
        None => copy_chars(s),
        Some(i) => {
            proof {
                lemma_spec_find(s@, p@, 0);
            }
            let n = s.len();
            let mut out: Vec<char> = Vec::new();
            push_range(&mut out, s, 0, i);
            push_range(&mut out, r, 0, r.len());
            push_range(&mut out, s, i + p.len(), n);
            proof {
                assert(r@.subrange(0, r@.len() as int) =~= r@);
                assert(out@ =~= s@.subrange(0, i as int) + r@ + s@.subrange(
                    i + p@.len() as int,
                    s@.len() as int,
                ));
            }
            out
        },
    }
}

pub fn copy_chars(s: &Vec<char>) -> (out: Vec<char>)
    ensures
        out@ == s@,
{
    let mut out: Vec<char> = Vec::new();
    push_range(&mut out, s, 0, s.len());
    proof {
        assert(s@.subrange(0, s@.len() as int) =~= s@);
    }
    out
}

/// Append `s[from..to]` to `out`.
fn push_range(out: &mut Vec<char>, s: &Vec<char>, from: usize, to: usize)
    requires
        from <= to <= s@.len(),
    ensures
        final(out)@ == old(out)@ + s@.subrange(from as int, to as int),
{
    let mut k: usize = from;
    while k < to
        invariant
            from <= k <= to <= s@.len(),
            out@ == old(out)@ + s@.subrange(from as int, k as int),
        decreases to - k,
    {
        let ghost prev = out@;
        out.push(s[k]);
        proof {
            assert(old(out)@ + s@.subrange(from as int, k + 1 as int) =~= prev.push(
                s@[k as int],
            ));
        }
        k += 1;
    }
}

/// Whether `s` holds `p` anywhere.
pub fn contains_pattern(s: &Vec<char>, p: &Vec<char>) -> (r: bool)
    ensures
        r == contains_pat(s@, p@),
{
    let found = find_pat(s, p);
    proof {
        lemma_spec_find(s@, p@, 0);
        if found is Some {
            assert(contains_pat(s@, p@));
        } else {
            if contains_pat(s@, p@) {
                let i = choose|i: int| matches_at(s@, p@, i);
            }
        }
    }
    found.is_some()
}

/// `s` split on the character `d`, as the pieces between its occurrences.
/// The position of the first occurrence of the character `d` in `s`.
fn index_of_char(s: &Vec<char>, d: char) -> (r: Option<usize>)
    ensures
        match r {
            Some(i) => spec_index_of(s@, d, 0) == Some(i as int),
            None => spec_index_of(s@, d, 0) is None,
        },
{
    let mut k: usize = 0;
    while k < s.len()
        invariant
            k <= s@.len(),
            spec_index_of(s@, d, 0) == spec_index_of(s@, d, k as int),
        decreases s@.len() - k,
    {
        if s[k] == d {
            return Some(k);
        }
        k += 1;
    }
    None
}

pub fn split_on(s: &Vec<char>, d: char) -> (out: Vec<Vec<char>>)
    ensures
        out.deep_view() == spec_split(s@, d),
    decreases s@.len(),
{
    let first = index_of_char(s, d);
    match first {
        None => {
            let mut out: Vec<Vec<char>> = Vec::new();
            let piece = copy_chars(s);
            out.push(piece);
            proof {
                assert(out.deep_view() =~~= seq![s@]);
            }
            out
        },
        Some(j) => {
            proof {
                lemma_spec_index_of(s@, d, 0);
            }
            let n = s.len();
            let mut head: Vec<char> = Vec::new();
            push_range(&mut head, s, 0, j);
            let mut rest: Vec<char> = Vec::new();
            push_range(&mut rest, s, j + 1, n);
            proof {
                assert(rest@ =~= s@.subrange(j + 1 as int, s@.len() as int));
                assert(rest@.len() < s@.len());
            }
            let mut tail_pieces = split_on(&rest, d);
            let mut out: Vec<Vec<char>> = Vec::new();
            out.push(head);
            let ghost dv_head = out.deep_view();
            let ghost tpv = tail_pieces@;
            let ghost tpdv = tail_pieces.deep_view();
            out.append(&mut tail_pieces);
            proof {
                assert(dv_head =~~= seq![s@.subrange(0, j as int)]);
                assert forall|k: int| 0 <= k < out@.len() implies #[trigger] out.deep_view()[k]
                    == (dv_head + spec_split(rest@, d))[k] by {
                    if k > 0 {
                        assert(out@[k] == tpv[k - 1]);
                        assert(tpdv[k - 1] == tpv[k - 1].deep_view());
                    }
                }
                assert(out.deep_view() =~= dv_head + spec_split(rest@, d));
                assert(out.deep_view() =~= spec_split(s@, d));
            }
            out
        },
    }
}

/// The pieces joined with the character `d` between each two.
pub fn join_with(ls: &Vec<Vec<char>>, d: char) -> (out: Vec<char>)
    ensures
        out@ == spec_join(ls.deep_view(), d),
{
    let mut out: Vec<char> = Vec::new();
    if ls.len() == 0 {
        return out;
    }
    let n = ls.len();
    let mut i: usize = 0;
    while i < n
        invariant
            n == ls@.len(),
            n >= 1,
            i <= n,
            i == 0 ==> out@.len() == 0,
            0 < i < n ==> out@ == spec_join(ls.deep_view().subrange(0, i as int), d) + seq![d],
            i == n ==> out@ == spec_join(ls.deep_view(), d),
        decreases n - i,
    {
        let ghost pre = out@;
        push_range(&mut out, &ls[i], 0, ls[i].len());
        proof {
            assert(ls@[i as int]@.subrange(0, ls@[i as int]@.len() as int) =~= ls@[i as int]@);
            assert(ls.deep_view()[i as int] =~= ls@[i as int]@);
            assert(out@ == pre + ls.deep_view()[i as int]);
        }
        if i + 1 < n {
            out.push(d);
            proof {
                assert(out@ =~= pre + ls.deep_view()[i as int] + seq![d]);
            }
        }
        proof {
            lemma_join_take(ls.deep_view(), d, i as int);
            if i + 1 == n {
                assert(ls.deep_view().subrange(0, n as int) =~= ls.deep_view());
            }
        }
        i += 1;
    }
    out
}

/// Joining one more piece extends the joined text by a separator and the
/// piece, except for the first piece.
proof fn lemma_join_take(ls: Seq<Seq<char>>, d: char, i: int)
    requires
        0 <= i < ls.len(),
    ensures
        i + 1 < ls.len() ==> spec_join(ls.subrange(0, i + 1), d) + seq![d] == (if i == 0 {
            Seq::<char>::empty()
        } else {
            spec_join(ls.subrange(0, i), d) + seq![d]
        }) + ls[i] + seq![d],
        i + 1 == ls.len() ==> spec_join(ls.subrange(0, i + 1), d) == (if i == 0 {
            Seq::<char>::empty()
        } else {
            spec_join(ls.subrange(0, i), d) + seq![d]
        }) + ls[i],
    decreases i,
{
    if i == 0 {
        assert(spec_join(ls.subrange(0, 1), d) =~= ls[0]);
        if 1 < ls.len() {
            assert(spec_join(ls.subrange(0, 1), d) + seq![d] =~= Seq::<char>::empty() + ls[0]
                + seq![d]);
        } else {
            assert(spec_join(ls.subrange(0, 1), d) =~= Seq::<char>::empty() + ls[0]);
        }
    } else {
        lemma_join_prefix_step(ls.subrange(0, i + 1), d, i);
        lemma_join_take(ls, d, i - 1);
        assert(ls.subrange(0, i + 1).subrange(0, i) =~= ls.subrange(0, i));
        assert(spec_join(ls.subrange(0, i + 1), d) == spec_join(ls.subrange(0, i), d) + seq![d]
            + ls[i]);
        if i + 1 < ls.len() {
            assert(spec_join(ls.subrange(0, i + 1), d) + seq![d] =~= (spec_join(
                ls.subrange(0, i),
                d,
            ) + seq![d]) + ls[i] + seq![d]);
        } else {
            assert(spec_join(ls.subrange(0, i + 1), d) =~= (spec_join(ls.subrange(0, i), d)
                + seq![d]) + ls[i]);
        }
    }
}

/// Joining pieces appends the last piece after a separator.
proof fn lemma_join_prefix_step(ls: Seq<Seq<char>>, d: char, i: int)
    requires
        ls.len() == i + 1,
        i >= 1,
    ensures
        spec_join(ls, d) == spec_join(ls.subrange(0, i), d) + seq![d] + ls[i],
    decreases i,
{
    if i == 1 {
        assert(ls.drop_first() =~= seq![ls[1]]);
        assert(spec_join(ls.drop_first(), d) == ls[1]);
        assert(ls.subrange(0, 1) =~= seq![ls[0]]);
        assert(spec_join(ls, d) =~= ls[0] + seq![d] + ls[1]);
        assert(spec_join(ls.subrange(0, 1), d) + seq![d] + ls[1] =~= ls[0] + seq![d] + ls[1]);
    } else {
        lemma_join_prefix_step(ls.drop_first(), d, i - 1);
        assert(ls.drop_first().subrange(0, i - 1) =~= ls.subrange(0, i).drop_first());
        assert(ls.drop_first()[i - 1] == ls[i]);
        assert(spec_join(ls, d) == ls[0] + seq![d] + spec_join(ls.drop_first(), d));
        assert(spec_join(ls.subrange(0, i), d) == ls.subrange(0, i)[0] + seq![d] + spec_join(
            ls.subrange(0, i).drop_first(),
            d,
        ));
        assert(ls.subrange(0, i)[0] == ls[0]);
        assert(spec_join(ls, d) =~= spec_join(ls.subrange(0, i), d) + seq![d] + ls[i]);
    }
}

/// The characters of `s`, as a vector.
pub fn chars_of(s: &str) -> (v: Vec<char>)
    ensures
        v@ == s@,
{
    let n = s.unicode_len();
    let mut v: Vec<char> = Vec::new();
    let mut i: usize = 0;
    while i < n
        invariant
            n == s@.len(),
            i <= n,
            v@ =~= s@.subrange(0, i as int),
        decreases n - i,
    {
        let c = s.get_char(i);
        v.push(c);
        i += 1;
    }
    proof {
        assert(s@.subrange(0, s@.len() as int) =~= s@);
    }
    v
}

/// Append the whole of `s` to `out`.
pub fn append_all(out: &mut Vec<char>, s: &Vec<char>)
    ensures
        final(out)@ == old(out)@ + s@,
{
    push_range(out, s, 0, s.len());
    proof {
        assert(s@.subrange(0, s@.len() as int) =~= s@);
    }
}

} // verus!
