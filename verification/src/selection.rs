//! Parsing a snapshot selection: the caller types the numbers of up to five
//! snapshots, separated by single spaces, as shown in a one-based listing.
//! Each token is taken on its own: a well-formed number inside the range is
//! converted to its zero-based index, duplicates and everything else are
//! dropped without failing the whole request, and at most the first five
//! accepted indices are kept.

use vstd::prelude::*;
use vstd::string::StrSliceExecFns;

verus! {

/// The most snapshots one side-by-side comparison may select.
pub const MAX_COMPARE_SELECTION: usize = 5;

pub open spec fn is_digit(c: char) -> bool {
    48 <= c as u32 && c as u32 <= 57
}

pub open spec fn all_digits(s: Seq<char>) -> bool {
    forall|i: int| 0 <= i < s.len() ==> is_digit(#[trigger] s[i])
}

/// The value of a decimal numeral.
pub open spec fn dec_val(s: Seq<char>) -> int
    decreases s.len(),
{
    if s.len() == 0 {
        0
    } else {
        dec_val(s.drop_last()) * 10 + (s.last() as u32 - 48)
    }
}

/// The position of the first space, or the length when there is none.
pub open spec fn first_space(s: Seq<char>) -> int
    decreases s.len(),
{
    if s.len() == 0 {
        0
    } else if s[0] == ' ' {
        0
    } else {
        1 + first_space(s.drop_first())
    }
}

/// The tokens of a line, split at every single space, as the selection
/// prompt reads them. Splitting an empty line yields one empty token.
pub open spec fn tokens_of(s: Seq<char>) -> Seq<Seq<char>>
    decreases s.len(),
{
    let fs = first_space(s);
    if 0 <= fs < s.len() {
        seq![s.subrange(0, fs)] + tokens_of(s.subrange(fs + 1, s.len() as int))
    } else {
        seq![s]
    }
}

/// The zero-based indices accepted from the first `k` tokens: a token
/// counts when it is a well-formed number within `[minval, maxval]` whose
/// index was not already accepted.
pub open spec fn selection_values(
    toks: Seq<Seq<char>>,
    k: int,
    minval: int,
    maxval: int,
) -> Seq<usize>
    decreases k,
{
    if k <= 0 {
        Seq::empty()
    } else {
        let prev = selection_values(toks, k - 1, minval, maxval);
        let t = toks[k - 1];
        if t.len() > 0 && all_digits(t) && dec_val(t) <= usize::MAX as int && minval <= dec_val(t)
            && dec_val(t) <= maxval && !prev.contains((dec_val(t) - 1) as usize) {
            prev.push((dec_val(t) - 1) as usize)
        } else {
            prev
        }
    }
}

proof fn lemma_first_space_bounds(s: Seq<char>)
    ensures
        0 <= first_space(s) <= s.len(),
        first_space(s) < s.len() ==> s[first_space(s)] == ' ',
        forall|q: int| 0 <= q < first_space(s) ==> s[q] != ' ',
    decreases s.len(),
{
    if s.len() == 0 {
    } else if s[0] == ' ' {
    } else {
        lemma_first_space_bounds(s.drop_first());
        assert forall|q: int| 0 <= q < first_space(s) implies s[q] != ' ' by {
            if q >= 1 {
                assert(s.drop_first()[q - 1] == s[q]);
            }
        }
    }
}

/// Pins the first space: a position holding a space with none before it.
proof fn lemma_first_space_at(s: Seq<char>, p: int)
    requires
        0 <= p <= s.len(),
        p < s.len() ==> s[p] == ' ',
        forall|q: int| 0 <= q < p ==> s[q] != ' ',
        p == s.len() ==> forall|q: int| 0 <= q < s.len() ==> s[q] != ' ',
    ensures
        first_space(s) == p,
{
    lemma_first_space_bounds(s);
    let fs = first_space(s);
    if fs < p {
        assert(s[fs] == ' ');
    } else if p < fs {
        assert(s[p] != ' ');
    }
}

proof fn lemma_dec_val_nonneg(s: Seq<char>)
    requires
        all_digits(s),
    ensures
        dec_val(s) >= 0,
    decreases s.len(),
{
    if s.len() > 0 {
        assert(all_digits(s.drop_last())) by {
            assert forall|i: int| 0 <= i < s.drop_last().len() implies is_digit(
                #[trigger] s.drop_last()[i],
            ) by {
                assert(s.drop_last()[i] == s[i]);
            }
        }
        lemma_dec_val_nonneg(s.drop_last());
    }
}

/// A decimal numeral is no smaller than any of its prefixes.
proof fn lemma_dec_val_grows(s: Seq<char>, p: int)
    requires
        0 <= p <= s.len(),
        all_digits(s),
    ensures
        dec_val(s.take(p)) <= dec_val(s),
    decreases s.len() - p,
{
    if p == s.len() {
        assert(s.take(p) =~= s);
    } else {
        assert(all_digits(s.take(p))) by {
            assert forall|i: int| 0 <= i < s.take(p).len() implies is_digit(
                #[trigger] s.take(p)[i],
            ) by {
                assert(s.take(p)[i] == s[i]);
            }
        }
        lemma_dec_val_nonneg(s.take(p));
        assert(s.take(p + 1).drop_last() =~= s.take(p));
        assert(s.take(p + 1).last() == s[p]);
        assert(dec_val(s.take(p + 1)) == dec_val(s.take(p)) * 10 + (s[p] as u32 - 48));
        lemma_dec_val_grows(s, p + 1);
    }
}

/// The characters of `s` between `from` and `to`.
fn collect_range(s: &str, from: usize, to: usize) -> (r: Vec<char>)
    requires
        from <= to <= s@.len(),
    ensures
        r@ == s@.subrange(from as int, to as int),
    decreases to - from,
{
    let mut r: Vec<char> = Vec::new();
    let mut p = from;
    while p < to
        invariant
            from <= p <= to <= s@.len(),
            r@ == s@.subrange(from as int, p as int),
        decreases to - p,
    {
        r.push(s.get_char(p));
        proof {
            assert(s@.subrange(from as int, p + 1) =~= s@.subrange(from as int, p as int).push(
                s@[p as int],
            ));
        }
        p = p + 1;
    }
    r
}

/// Split a line at every single space, exactly as the selection prompt
/// tokenises it.
fn split_spaces(s: &str) -> (r: Vec<Vec<char>>)
    ensures
        r@.len() == tokens_of(s@).len(),
        forall|k: int| 0 <= k < r@.len() ==> (#[trigger] r@[k])@ == tokens_of(s@)[k],
{
    let n = s.unicode_len();
    let mut r: Vec<Vec<char>> = Vec::new();
    let mut start: usize = 0;
    proof {
        assert(s@.subrange(0, n as int) =~= s@);
        assert(r@.map_values(|v: Vec<char>| v@) + tokens_of(s@) =~= tokens_of(s@));
    }
    loop
        invariant_except_break
            n == s@.len(),
            start <= n,
            tokens_of(s@) == r@.map_values(|v: Vec<char>| v@) + tokens_of(
                s@.subrange(start as int, n as int),
            ),
        ensures
            tokens_of(s@) == r@.map_values(|v: Vec<char>| v@),
        decreases n - start,
    {
        let ghost r0 = r@;
        let mut q = start;
        while q < n && s.get_char(q) != ' '
            invariant
                n == s@.len(),
                start <= q <= n,
                forall|x: int| start <= x < q ==> s@[x] != ' ',
            decreases n - q,
        {
            q = q + 1;
        }
        let tok = collect_range(s, start, q);
        r.push(tok);
        proof {
            let u = s@.subrange(start as int, n as int);
            assert(r@.map_values(|v: Vec<char>| v@) =~= r0.map_values(|v: Vec<char>| v@).push(
                u.subrange(0, q - start),
            )) by {
                assert(u.subrange(0, q - start) =~= s@.subrange(start as int, q as int));
            }
            if q < n {
                lemma_first_space_at(u, q - start);
                assert(tokens_of(u) == seq![u.subrange(0, q - start)] + tokens_of(
                    u.subrange(q - start + 1, u.len() as int),
                ));
                assert(u.subrange(q - start + 1, u.len() as int) =~= s@.subrange(
                    q + 1,
                    n as int,
                ));
                assert(r0.map_values(|v: Vec<char>| v@) + tokens_of(u) =~= r@.map_values(
                    |v: Vec<char>| v@,
                ) + tokens_of(s@.subrange(q + 1, n as int)));
            } else {
                lemma_first_space_at(u, u.len() as int);
                assert(tokens_of(u) == seq![u]);
                assert(u =~= s@.subrange(start as int, q as int));
                assert(r0.map_values(|v: Vec<char>| v@) + tokens_of(u) =~= r@.map_values(
                    |v: Vec<char>| v@,
                ));
            }
        }
        if q == n {
            break;
        }
        start = q + 1;
    }
    r
}

/// Parse one token as a decimal number, refusing empty tokens, non-digits,
/// and values above `usize::MAX`.
fn parse_usize(tok: &Vec<char>) -> (r: Option<usize>)
    ensures
        match r {
            Some(v) => tok@.len() > 0 && all_digits(tok@) && dec_val(tok@) == v as int,
            None => tok@.len() == 0 || !all_digits(tok@) || dec_val(tok@) > usize::MAX as int,
        },
{
    if tok.len() == 0 {
        return None;
    }
    let mut acc: usize = 0;
    let mut i: usize = 0;
    while i < tok.len()
        invariant
            i <= tok@.len(),
            all_digits(tok@.take(i as int)),
            acc == dec_val(tok@.take(i as int)),
        decreases tok@.len() - i,
    {
        let c = tok[i];
        let u = c as u32;
        if u < 48 || u > 57 {
            assert(!is_digit(tok@[i as int]));
            return None;
        }
        let d = ((u - 48) as u8) as usize;
        proof {
            assert(tok@.take(i + 1).drop_last() =~= tok@.take(i as int));
            assert(tok@.take(i + 1).last() == tok@[i as int]);
            assert(all_digits(tok@.take(i + 1))) by {
                assert forall|x: int| 0 <= x < i + 1 implies is_digit(
                    #[trigger] tok@.take(i + 1)[x],
                ) by {
                    if x < i {
                        assert(tok@.take(i + 1)[x] == tok@.take(i as int)[x]);
                    } else {
                        assert(tok@.take(i + 1)[x] == tok@[i as int]);
                        assert(c == tok@[i as int]);
                        assert(48 <= c as u32 && c as u32 <= 57);
                    }
                }
            }
        }
        if acc > (usize::MAX - d) / 10 {
            proof {
                assert(acc * 10 + d > usize::MAX) by (nonlinear_arith)
                    requires
                        acc > (usize::MAX - d) / 10,
                        0 <= d <= 9,
                ;
                assert(dec_val(tok@.take(i + 1)) == acc * 10 + d);
                if all_digits(tok@) {
                    lemma_dec_val_grows(tok@, i + 1);
                }
            }
            return None;
        }
        proof {
            assert(acc * 10 + d <= usize::MAX) by (nonlinear_arith)
                requires
                    acc <= (usize::MAX - d) / 10,
                    0 <= d <= 9,
            ;
        }
        acc = acc * 10 + d;
        i = i + 1;
    }
    proof {
        assert(tok@.take(tok@.len() as int) =~= tok@);
    }
    Some(acc)
}

fn contains_val(v: &Vec<usize>, x: usize) -> (r: bool)
    ensures
        r == v@.contains(x),
{
    let mut i: usize = 0;
    while i < v.len()
        invariant
            i <= v@.len(),
            forall|k: int| 0 <= k < i ==> v@[k] != x,
        decreases v@.len() - i,
    {
        if v[i] == x {
            assert(v@.contains(x));
            return true;
        }
        i = i + 1;
    }
    assert(!v@.contains(x)) by {
        if v@.contains(x) {
            let k = choose|k: int| 0 <= k < v@.len() && v@[k] == x;
        }
    }
    false
}

/// Read a space-separated selection of one-based listing numbers and return
/// the zero-based indices of the accepted ones: in range, well formed, not
/// yet selected, capped at the first `MAX_COMPARE_SELECTION`. `None` when no
/// token was accepted.
pub fn parse_selection(response: &String, minval: usize, maxval: usize) -> (r: Option<Vec<usize>>)
    requires
        minval >= 1,
    ensures
        ({
            let vals = selection_values(
                tokens_of(response@),
                tokens_of(response@).len() as int,
                minval as int,
                maxval as int,
            );
            match r {
                None => vals.len() == 0,
                Some(v) => vals.len() > 0 && v@ == (if vals.len() > MAX_COMPARE_SELECTION {
                    vals.take(MAX_COMPARE_SELECTION as int)
                } else {
                    vals
                }),
            }
        }),
{
    let toks = split_spaces(response.as_str());
    let ghost whole = tokens_of(response@);
    let mut vals: Vec<usize> = Vec::new();
    let mut k: usize = 0;
    while k < toks.len()
        invariant
            minval >= 1,
            k <= toks@.len(),
            toks@.len() == whole.len(),
            whole == tokens_of(response@),
            forall|x: int| 0 <= x < toks@.len() ==> (#[trigger] toks@[x])@ == whole[x],
            vals@ == selection_values(whole, k as int, minval as int, maxval as int),
        decreases toks@.len() - k,
    {
        let ghost vals0 = vals@;
        match parse_usize(&toks[k]) {
            Some(v) => {
                if v >= minval && v <= maxval && !contains_val(&vals, v - 1) {
                    vals.push(v - 1);
                }
            },
            None => (),
        }
        proof {
            assert(toks@[k as int]@ == whole[k as int]);
            assert(selection_values(whole, k + 1, minval as int, maxval as int) == vals@);
        }
        k = k + 1;
    }
    if vals.len() == 0 {
        None
    } else if vals.len() > MAX_COMPARE_SELECTION {
        proof {
            assert(vals@.len() > MAX_COMPARE_SELECTION);
        }
        vals.truncate(MAX_COMPARE_SELECTION);
        Some(vals)
    } else {
        Some(vals)
    }
}

} // verus!
