//! Normalisation of names. Display names stay as the user wrote them; the
//! uniqueness key of a category or item is the name with every ASCII capital
//! letter folded to lower case, held as a sequence of characters. Folding is
//! restricted to ASCII so that the key of a name is a pure, fully specified
//! function of its characters.

use vstd::prelude::*;
use vstd::string::StrSliceExecFns;

verus! {

/// One character with ASCII capitals folded to lower case.
pub open spec fn fold_char(c: char) -> char {
    if 65 <= c as u32 && c as u32 <= 90 {
        ((c as u32) + 32) as char
    } else {
        c
    }
}

/// A whole name with ASCII capitals folded to lower case.
pub open spec fn fold(s: Seq<char>) -> Seq<char> {
    s.map_values(|c: char| fold_char(c))
}

/// ASCII whitespace, as trimmed from the ends of a category name.
pub open spec fn is_ws(c: char) -> bool {
    c == ' ' || c == '\t' || c == '\n' || c == '\r'
}

pub open spec fn trim_front(s: Seq<char>) -> Seq<char>
    decreases s.len(),
{
    if s.len() == 0 {
        s
    } else if is_ws(s[0]) {
        trim_front(s.drop_first())
    } else {
        s
    }
}

pub open spec fn trim_back(s: Seq<char>) -> Seq<char>
    decreases s.len(),
{
    if s.len() == 0 {
        s
    } else if is_ws(s[s.len() - 1]) {
        trim_back(s.drop_last())
    } else {
        s
    }
}

/// A name with ASCII whitespace removed from both ends.
pub open spec fn trim_ws(s: Seq<char>) -> Seq<char> {
    trim_back(trim_front(s))
}

fn fold_char_exec(c: char) -> (r: char)
    ensures
        r == fold_char(c),
{
    let u = c as u32;
    if 65 <= u && u <= 90 {
        let b: u8 = (u + 32) as u8;
        b as char
    } else {
        c
    }
}

/// The uniqueness key of a display name.
pub fn fold_name(s: &str) -> (r: Vec<char>)
    ensures
        r@ == fold(s@),
{
    let n = s.unicode_len();
    let mut r: Vec<char> = Vec::new();
    let mut i: usize = 0;
    while i < n
        invariant
            n == s@.len(),
            i <= n,
            r@ == fold(s@.take(i as int)),
        decreases n - i,
    {
        let c = s.get_char(i);
        r.push(fold_char_exec(c));
        proof {
            assert(s@.take(i + 1) =~= s@.take(i as int).push(s@[i as int]));
            assert(fold(s@.take(i + 1)) =~= fold(s@.take(i as int)).push(fold_char(s@[i as int])));
        }
        i = i + 1;
    }
    proof {
        assert(s@.take(n as int) =~= s@);
    }
    r
}

/// An exact copy of a key.
pub fn copy_key(a: &Vec<char>) -> (r: Vec<char>)
    ensures
        r@ == a@,
{
    let mut r: Vec<char> = Vec::new();
    let mut i: usize = 0;
    while i < a.len()
        invariant
            i <= a@.len(),
            r@ == a@.take(i as int),
        decreases a@.len() - i,
    {
        r.push(a[i]);
        proof {
            assert(a@.take(i + 1) =~= a@.take(i as int).push(a@[i as int]));
        }
        i = i + 1;
    }
    proof {
        assert(a@.take(a@.len() as int) =~= a@);
    }
    r
}

/// Whether two keys are the same sequence of characters.
pub fn key_eq(a: &Vec<char>, b: &Vec<char>) -> (r: bool)
    ensures
        r == (a@ == b@),
{
    if a.len() != b.len() {
        assert(a@ != b@);
        return false;
    }
    let mut i: usize = 0;
    while i < a.len()
        invariant
            a@.len() == b@.len(),
            i <= a@.len(),
            forall|k: int| 0 <= k < i ==> a@[k] == b@[k],
        decreases a@.len() - i,
    {
        if a[i] != b[i] {
            return false;
        }
        i = i + 1;
    }
    proof {
        assert(a@ =~= b@);
    }
    true
}

proof fn lemma_trim_front_subrange(s: Seq<char>, f: int)
    requires
        0 <= f <= s.len(),
        forall|k: int| 0 <= k < f ==> is_ws(s[k]),
        f < s.len() ==> !is_ws(s[f]),
    ensures
        trim_front(s) == s.subrange(f, s.len() as int),
    decreases f,
{
    if f == 0 {
        if s.len() == 0 || !is_ws(s[0]) {
            assert(trim_front(s) == s);
            assert(s.subrange(0, s.len() as int) =~= s);
        }
    } else {
        assert(is_ws(s[0]));
        let t = s.drop_first();
        lemma_trim_front_subrange(t, f - 1);
        assert(t.subrange(f - 1, t.len() as int) =~= s.subrange(f, s.len() as int));
    }
}

proof fn lemma_trim_back_subrange(s: Seq<char>, l: int)
    requires
        0 <= l <= s.len(),
        forall|k: int| l <= k < s.len() ==> is_ws(s[k]),
        l > 0 ==> !is_ws(s[l - 1]),
    ensures
        trim_back(s) == s.subrange(0, l),
    decreases s.len() - l,
{
    if l == s.len() {
        if s.len() == 0 || !is_ws(s[s.len() - 1]) {
            assert(trim_back(s) == s);
            assert(s.subrange(0, s.len() as int) =~= s);
        }
    } else {
        assert(is_ws(s[s.len() - 1]));
        let t = s.drop_last();
        lemma_trim_back_subrange(t, l);
        assert(t.subrange(0, l) =~= s.subrange(0, l));
    }
}

fn is_ws_exec(c: char) -> (r: bool)
    ensures
        r == is_ws(c),
{
    c == ' ' || c == '\t' || c == '\n' || c == '\r'
}

/// A copy of the name with ASCII whitespace removed from both ends.
pub fn trim_name(s: &str) -> (r: String)
    ensures
        r@ == trim_ws(s@),
{
    let n = s.unicode_len();
    let mut f: usize = 0;
    while f < n && is_ws_exec(s.get_char(f))
        invariant
            n == s@.len(),
            f <= n,
            forall|k: int| 0 <= k < f ==> is_ws(s@[k]),
        decreases n - f,
    {
        f = f + 1;
    }
    if f == n {
        proof {
            lemma_trim_front_subrange(s@, n as int);
            assert(s@.subrange(n as int, n as int) =~= Seq::<char>::empty());
            assert(trim_back(Seq::<char>::empty()) == Seq::<char>::empty());
        }
        return String::new();
    }
    let mut l: usize = n;
    while l > f && is_ws_exec(s.get_char(l - 1))
        invariant
            n == s@.len(),
            f <= l <= n,
            f < n,
            !is_ws(s@[f as int]),
            forall|k: int| l <= k < n ==> is_ws(s@[k]),
        decreases l,
    {
        l = l - 1;
    }
    let t = s.substring_char(f, l);
    proof {
        lemma_trim_front_subrange(s@, f as int);
        let mid = s@.subrange(f as int, n as int);
        lemma_trim_back_subrange(mid, l - f);
        assert(mid.subrange(0, l - f) =~= s@.subrange(f as int, l as int));
    }
    t.to_owned()
}

} // verus!
