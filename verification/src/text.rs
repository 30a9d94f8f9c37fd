//! Character-level helpers: the whitespace predicate used for key trimming,
//! trimming at the level of character sequences, and small executable
//! utilities over `&str` that the scanner builds on.

use vstd::prelude::*;
use vstd::std_specs::iter::IteratorSpec;
use vstd::string::*;

verus! {

/// The characters that trimming removes: the Unicode `White_Space` set,
/// the same set that `char::is_whitespace` recognises.
pub open spec fn is_space(c: char) -> bool {
    ||| (0x09 <= c as u32 && c as u32 <= 0x0D)
    ||| c as u32 == 0x20
    ||| c as u32 == 0x85
    ||| c as u32 == 0xA0
    ||| c as u32 == 0x1680
    ||| (0x2000 <= c as u32 && c as u32 <= 0x200A)
    ||| c as u32 == 0x2028
    ||| c as u32 == 0x2029
    ||| c as u32 == 0x202F
    ||| c as u32 == 0x205F
    ||| c as u32 == 0x3000
}

/// Decides [`is_space`] for one character.
pub fn is_space_char(c: char) -> (r: bool)
    ensures
        r == is_space(c),
{
    let u = c as u32;
    (0x09 <= u && u <= 0x0D) || u == 0x20 || u == 0x85 || u == 0xA0 || u == 0x1680 || (0x2000 <= u
        && u <= 0x200A) || u == 0x2028 || u == 0x2029 || u == 0x202F || u == 0x205F || u == 0x3000
}

/// The sequence with leading whitespace removed.
pub open spec fn trim_start_rec(s: Seq<char>) -> Seq<char>
    decreases s.len(),
{
    if s.len() > 0 && is_space(s[0]) {
        trim_start_rec(s.drop_first())
    } else {
        s
    }
}

/// The sequence with trailing whitespace removed.
pub open spec fn trim_end_rec(s: Seq<char>) -> Seq<char>
    decreases s.len(),
{
    if s.len() > 0 && is_space(s[s.len() - 1]) {
        trim_end_rec(s.drop_last())
    } else {
        s
    }
}

/// The sequence with surrounding whitespace removed, as `str::trim` removes it.
pub open spec fn trim_seq(s: Seq<char>) -> Seq<char> {
    trim_end_rec(trim_start_rec(s))
}

/// Removing leading whitespace keeps the suffix that starts at the first
/// non-whitespace character.
proof fn lemma_trim_start_at(s: Seq<char>, k: int)
    requires
        0 <= k <= s.len(),
        forall|j: int| 0 <= j < k ==> is_space(s[j]),
        k < s.len() ==> !is_space(s[k]),
    ensures
        trim_start_rec(s) == s.subrange(k, s.len() as int),
    decreases k,
{
    if k == 0 {
        assert(s.subrange(0, s.len() as int) =~= s);
    } else {
        let t = s.drop_first();
        assert(t =~= s.subrange(1, s.len() as int));
        lemma_trim_start_at(t, k - 1);
        assert(t.subrange(k - 1, t.len() as int) =~= s.subrange(k, s.len() as int));
    }
}

/// Removing trailing whitespace keeps the prefix that ends after the last
/// non-whitespace character.
proof fn lemma_trim_end_at(s: Seq<char>, k: int)
    requires
        0 <= k <= s.len(),
        forall|j: int| k <= j < s.len() ==> is_space(s[j]),
        k > 0 ==> !is_space(s[k - 1]),
    ensures
        trim_end_rec(s) == s.subrange(0, k),
    decreases s.len(),
{
    if k == s.len() {
        if s.len() > 0 && is_space(s[s.len() - 1]) {
            assert(!is_space(s[k - 1]));
            assert(false);
        }
        assert(s.subrange(0, k) =~= s);
    } else {
        assert(is_space(s[s.len() - 1]));
        let t = s.drop_last();
        assert(t =~= s.subrange(0, s.len() - 1));
        lemma_trim_end_at(t, k);
        assert(t.subrange(0, k) =~= s.subrange(0, k));
    }
}

/// Trimming `s` keeps exactly the range from the first non-whitespace
/// character through the last one.
pub proof fn lemma_trim_range(s: Seq<char>, lo: int, hi: int)
    requires
        0 <= lo <= hi <= s.len(),
        forall|j: int| 0 <= j < lo ==> is_space(s[j]),
        forall|j: int| hi <= j < s.len() ==> is_space(s[j]),
        lo < hi ==> !is_space(s[lo]) && !is_space(s[hi - 1]),
        lo == hi ==> lo == s.len(),
    ensures
        trim_seq(s) == s.subrange(lo, hi),
{
    lemma_trim_start_at(s, lo);
    let t = s.subrange(lo, s.len() as int);
    lemma_trim_end_at(t, hi - lo);
    assert(t.subrange(0, hi - lo) =~= s.subrange(lo, hi));
}

/// How trimming the front distributes over concatenation: a whole leading
/// part survives as soon as something of it survives; otherwise it was all
/// whitespace and trimming moves on to the rest.
proof fn lemma_trim_start_append(a: Seq<char>, b: Seq<char>)
    ensures
        trim_start_rec(a + b) == if trim_start_rec(a).len() > 0 {
            trim_start_rec(a) + b
        } else {
            trim_start_rec(b)
        },
    decreases a.len(),
{
    if a.len() == 0 {
        assert(a + b =~= b);
    } else if is_space(a[0]) {
        assert((a + b).drop_first() =~= a.drop_first() + b);
        lemma_trim_start_append(a.drop_first(), b);
    } else {
        assert(trim_start_rec(a + b) == a + b);
    }
}

/// How trimming the back distributes over concatenation, mirroring
/// `lemma_trim_start_append`.
proof fn lemma_trim_end_append(a: Seq<char>, b: Seq<char>)
    ensures
        trim_end_rec(a + b) == if trim_end_rec(b).len() > 0 {
            a + trim_end_rec(b)
        } else {
            trim_end_rec(a)
        },
    decreases b.len(),
{
    if b.len() == 0 {
        assert(a + b =~= a);
    } else if is_space(b[b.len() - 1]) {
        assert((a + b).drop_last() =~= a + b.drop_last());
        lemma_trim_end_append(a, b.drop_last());
    } else {
        assert(trim_end_rec(a + b) == a + b);
    }
}

/// Trimming the front of all-whitespace text leaves nothing.
proof fn lemma_trim_start_all_space(w: Seq<char>)
    requires
        forall|j: int| 0 <= j < w.len() ==> is_space(w[j]),
    ensures
        trim_start_rec(w).len() == 0,
    decreases w.len(),
{
    if w.len() > 0 {
        lemma_trim_start_all_space(w.drop_first());
    }
}

/// Trimming the back of all-whitespace text leaves nothing.
proof fn lemma_trim_end_all_space(w: Seq<char>)
    requires
        forall|j: int| 0 <= j < w.len() ==> is_space(w[j]),
    ensures
        trim_end_rec(w).len() == 0,
    decreases w.len(),
{
    if w.len() > 0 {
        lemma_trim_end_all_space(w.drop_last());
    }
}

/// Whitespace padding on either side does not change what trimming leaves.
pub proof fn lemma_trim_pad(w1: Seq<char>, k: Seq<char>, w2: Seq<char>)
    requires
        forall|j: int| 0 <= j < w1.len() ==> is_space(w1[j]),
        forall|j: int| 0 <= j < w2.len() ==> is_space(w2[j]),
    ensures
        trim_seq(w1 + k + w2) == trim_seq(k),
{
    assert(w1 + k + w2 =~= w1 + (k + w2));
    lemma_trim_start_append(w1, k + w2);
    lemma_trim_start_all_space(w1);
    lemma_trim_start_append(k, w2);
    if trim_start_rec(k).len() > 0 {
        lemma_trim_end_append(trim_start_rec(k), w2);
        lemma_trim_end_all_space(w2);
    } else {
        lemma_trim_start_all_space(w2);
        assert(trim_start_rec(w2) =~= Seq::<char>::empty());
        assert(trim_start_rec(k) =~= Seq::<char>::empty());
    }
}

/// The characters of `s`, collected into a vector.
pub fn to_char_vec(s: &str) -> (v: Vec<char>)
    ensures
        v@ == s@,
{
    broadcast use vstd::string::axiom_spec_iter;
    broadcast use vstd::string::next_postcondition;

    let mut it = s.chars();
    let mut v: Vec<char> = Vec::new();
    loop
        invariant
            it.obeys_prophetic_iter_laws(),
            it.decrease() is Some,
            v@ + it.remaining() == s@,
        decreases it.decrease()->0,
    {
        match it.next() {
            Some(c) => {
                v.push(c);
                proof {
                    assert(v@ + it.remaining() =~= s@);
                }
            },
            None => {
                proof {
                    assert(v@ =~= s@);
                }
                return v;
            },
        }
    }
}

/// Whether two string slices hold the same characters.
pub fn str_eq(a: &str, b: &str) -> (r: bool)
    ensures
        r == (a@ == b@),
{
    let n = a.unicode_len();
    if n != b.unicode_len() {
        return false;
    }
    let mut i: usize = 0;
    while i < n
        invariant
            n == a@.len(),
            n == b@.len(),
            i <= n,
            forall|j: int| 0 <= j < i ==> a@[j] == b@[j],
        decreases n - i,
    {
        if a.get_char(i) != b.get_char(i) {
            return false;
        }
        i += 1;
    }
    proof {
        assert(a@ =~= b@);
    }
    true
}

} // verus!
