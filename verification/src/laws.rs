//! The library's laws: what holds of scanning and rendering as such, proved
//! once and for all inputs, over the same specification functions that the
//! executable functions' contracts use.

use vstd::prelude::*;

use crate::error::ErrorModel;
use crate::render::render_from;
use crate::render::render_result;
use crate::scanner::blocks_wf;
use crate::scanner::initial_scan_state;
use crate::scanner::lemma_scan_single;
use crate::scanner::lemma_scan_wf;
use crate::scanner::scan;
use crate::scanner::scan_at;
use crate::scanner::BlockModel;
use crate::scanner::ScanState;
use crate::text::is_space;
use crate::text::lemma_trim_pad;
use crate::text::trim_seq;

verus! {

/// Without an open marker and with no `{{` ahead, the scanner emits nothing.
proof fn lemma_scan_at_no_markers(s: Seq<char>, st: ScanState)
    requires
        st.i >= 0,
        !st.in_block,
        forall|i: int| st.i <= i < s.len() - 1 ==> !(s[i] == '{' && #[trigger] s[i + 1] == '{'),
    ensures
        scan_at(s, st) == Seq::<BlockModel>::empty(),
    decreases s.len() - st.i,
{
    if st.i < 0 || st.i >= s.len() {
    } else {
        let c = s[st.i];
        let line1 = if c == '\n' {
            st.line + 1
        } else {
            st.line
        };
        let col1 = if c == '\n' {
            0
        } else {
            st.col + 1
        };
        lemma_scan_at_no_markers(
            s,
            ScanState {
                i: st.i + 1,
                in_block: st.in_block,
                start: st.start,
                bline: st.bline,
                bcol: st.bcol,
                line: line1,
                col: col1,
            },
        );
    }
}

/// A template with no `{{` in it has no markers.
pub proof fn lemma_scan_empty(s: Seq<char>)
    requires
        forall|i: int| 0 <= i < s.len() - 1 ==> !(s[i] == '{' && #[trigger] s[i + 1] == '{'),
    ensures
        scan(s) == Seq::<BlockModel>::empty(),
{
    lemma_scan_at_no_markers(s, initial_scan_state());
}

/// Identity on marker-free input: rendering a template in which `{{` never
/// occurs returns the template unchanged, whatever the store holds.
pub proof fn lemma_render_identity(s: Seq<char>, m: Map<Seq<char>, Seq<char>>)
    requires
        forall|i: int| 0 <= i < s.len() - 1 ==> !(s[i] == '{' && #[trigger] s[i + 1] == '{'),
    ensures
        render_result(s, m) == Ok::<Seq<char>, ErrorModel>(s),
{
    lemma_scan_empty(s);
    assert(s.subrange(0, s.len() as int) =~= s);
}

/// From marker `k` on, rendering succeeds when every remaining key resolves.
proof fn lemma_render_from_ok(
    s: Seq<char>,
    bs: Seq<BlockModel>,
    k: int,
    cursor: int,
    m: Map<Seq<char>, Seq<char>>,
)
    requires
        forall|l: int| k <= l < bs.len() ==> m.contains_key((#[trigger] bs[l]).key),
    ensures
        render_from(s, bs, k, cursor, m) is Ok,
    decreases bs.len() - k,
{
    if k < 0 || k >= bs.len() {
    } else {
        lemma_render_from_ok(s, bs, k + 1, bs[k].start + bs[k].len, m);
    }
}

/// From marker `k` on, a successful render means every remaining key resolves.
proof fn lemma_render_from_resolved(
    s: Seq<char>,
    bs: Seq<BlockModel>,
    k: int,
    cursor: int,
    m: Map<Seq<char>, Seq<char>>,
)
    requires
        0 <= k,
        render_from(s, bs, k, cursor, m) is Ok,
    ensures
        forall|l: int| k <= l < bs.len() ==> m.contains_key((#[trigger] bs[l]).key),
    decreases bs.len() - k,
{
    if k >= bs.len() {
    } else {
        assert(m.contains_key(bs[k].key));
        lemma_render_from_resolved(s, bs, k + 1, bs[k].start + bs[k].len, m);
    }
}

/// Rendering succeeds exactly when the store holds every key the template
/// references; it fails closed otherwise.
pub proof fn lemma_render_total(s: Seq<char>, m: Map<Seq<char>, Seq<char>>)
    ensures
        render_result(s, m) is Ok <==> (forall|l: int|
            0 <= l < scan(s).len() ==> m.contains_key((#[trigger] scan(s)[l]).key)),
{
    if render_result(s, m) is Ok {
        lemma_render_from_resolved(s, scan(s), 0, 0, m);
    } else {
        if forall|l: int| 0 <= l < scan(s).len() ==> m.contains_key((#[trigger] scan(s)[l]).key) {
            lemma_render_from_ok(s, scan(s), 0, 0, m);
        }
    }
}

/// From marker `k` on, with every key before `j` resolved and `j`'s key
/// missing, rendering reports marker `j`.
proof fn lemma_render_from_err(
    s: Seq<char>,
    bs: Seq<BlockModel>,
    k: int,
    cursor: int,
    m: Map<Seq<char>, Seq<char>>,
    j: int,
)
    requires
        0 <= k <= j < bs.len(),
        !m.contains_key(bs[j].key),
        forall|l: int| k <= l < j ==> m.contains_key((#[trigger] bs[l]).key),
    ensures
        render_from(s, bs, k, cursor, m) == Err::<Seq<char>, ErrorModel>(
            ErrorModel { key: bs[j].key, line: bs[j].line, col: bs[j].col },
        ),
    decreases j - k,
{
    if k == j {
    } else {
        lemma_render_from_err(s, bs, k + 1, bs[k].start + bs[k].len, m, j);
    }
}

/// First-failure determinism: when the first marker whose key the store does
/// not hold is marker `j`, the render fails with exactly that marker's key,
/// line and column — later unresolved markers are never reported.
pub proof fn lemma_first_failure(s: Seq<char>, m: Map<Seq<char>, Seq<char>>, j: int)
    requires
        0 <= j < scan(s).len(),
        !m.contains_key(scan(s)[j].key),
        forall|l: int| 0 <= l < j ==> m.contains_key((#[trigger] scan(s)[l]).key),
    ensures
        render_result(s, m) == Err::<Seq<char>, ErrorModel>(
            ErrorModel { key: scan(s)[j].key, line: scan(s)[j].line, col: scan(s)[j].col },
        ),
{
    lemma_render_from_err(s, scan(s), 0, 0, m, j);
}

/// From marker `k` on, a failed render reports one of the markers from `k` on.
proof fn lemma_render_from_err_is_marker(
    s: Seq<char>,
    bs: Seq<BlockModel>,
    k: int,
    cursor: int,
    m: Map<Seq<char>, Seq<char>>,
)
    requires
        0 <= k,
        render_from(s, bs, k, cursor, m) is Err,
    ensures
        (exists|j: int|
            k <= j < bs.len() && render_from(s, bs, k, cursor, m)->Err_0 == (ErrorModel {
                key: (#[trigger] bs[j]).key,
                line: bs[j].line,
                col: bs[j].col,
            })),
    decreases bs.len() - k,
{
    if !m.contains_key(bs[k].key) {
        assert(render_from(s, bs, k, cursor, m)->Err_0 == ErrorModel {
            key: bs[k].key,
            line: bs[k].line,
            col: bs[k].col,
        });
    } else {
        lemma_render_from_err_is_marker(s, bs, k + 1, bs[k].start + bs[k].len, m);
    }
}

/// A failed render names one of the template's own markers, so the position
/// it reports is 1-based: line and column are both at least 1.
pub proof fn lemma_error_names_marker(s: Seq<char>, m: Map<Seq<char>, Seq<char>>)
    requires
        render_result(s, m) is Err,
    ensures
        (exists|j: int|
            0 <= j < scan(s).len() && render_result(s, m)->Err_0 == (ErrorModel {
                key: (#[trigger] scan(s)[j]).key,
                line: scan(s)[j].line,
                col: scan(s)[j].col,
            })),
        render_result(s, m)->Err_0.line >= 1,
        render_result(s, m)->Err_0.col >= 1,
{
    lemma_scan_wf(s);
    lemma_render_from_err_is_marker(s, scan(s), 0, 0, m);
}

/// The rendered text rebuilt by hand from marker `k` on: the literal text up
/// to each marker, then the value its key resolves to, and after the last
/// marker the rest of the template.
pub open spec fn reconstruct_from(
    s: Seq<char>,
    bs: Seq<BlockModel>,
    k: int,
    cursor: int,
    m: Map<Seq<char>, Seq<char>>,
) -> Seq<char>
    decreases bs.len() - k,
{
    if k < 0 || k >= bs.len() {
        s.subrange(cursor, s.len() as int)
    } else {
        s.subrange(cursor, bs[k].start) + m[bs[k].key] + reconstruct_from(
            s,
            bs,
            k + 1,
            bs[k].start + bs[k].len,
            m,
        )
    }
}

/// From marker `k` on, a successful render is the by-hand reconstruction.
proof fn lemma_render_from_reconstructs(
    s: Seq<char>,
    bs: Seq<BlockModel>,
    k: int,
    cursor: int,
    m: Map<Seq<char>, Seq<char>>,
)
    requires
        render_from(s, bs, k, cursor, m) is Ok,
    ensures
        render_from(s, bs, k, cursor, m) == Ok::<Seq<char>, ErrorModel>(
            reconstruct_from(s, bs, k, cursor, m),
        ),
    decreases bs.len() - k,
{
    if k < 0 || k >= bs.len() {
    } else {
        lemma_render_from_reconstructs(s, bs, k + 1, bs[k].start + bs[k].len, m);
    }
}

/// Round-trip reconstruction: when the render succeeds, its output is exactly
/// the concatenation, marker by marker, of the literal piece before the
/// marker and the value resolved for it, closed by the literal tail.
pub proof fn lemma_round_trip(s: Seq<char>, m: Map<Seq<char>, Seq<char>>)
    requires
        render_result(s, m) is Ok,
    ensures
        render_result(s, m) == Ok::<Seq<char>, ErrorModel>(reconstruct_from(s, scan(s), 0, 0, m)),
{
    lemma_render_from_reconstructs(s, scan(s), 0, 0, m);
}

/// The characters the markers from `k` on cover, counted together.
pub open spec fn span_len_from(bs: Seq<BlockModel>, k: int) -> int
    decreases bs.len() - k,
{
    if k < 0 || k >= bs.len() {
        0
    } else {
        bs[k].len + span_len_from(bs, k + 1)
    }
}

/// The lengths of the values the markers from `k` on resolve to, added up.
pub open spec fn value_len_from(bs: Seq<BlockModel>, k: int, m: Map<Seq<char>, Seq<char>>) -> int
    decreases bs.len() - k,
{
    if k < 0 || k >= bs.len() {
        0
    } else {
        m[bs[k].key].len() + value_len_from(bs, k + 1, m)
    }
}

/// From marker `k` on, the rendered text is as long as the remaining input,
/// less the markers, plus their values.
proof fn lemma_render_from_len(
    s: Seq<char>,
    bs: Seq<BlockModel>,
    k: int,
    cursor: int,
    m: Map<Seq<char>, Seq<char>>,
)
    requires
        blocks_wf(s, bs),
        0 <= k <= bs.len(),
        0 <= cursor,
        k < bs.len() ==> cursor <= bs[k].start,
        k >= bs.len() ==> cursor <= s.len(),
        render_from(s, bs, k, cursor, m) is Ok,
    ensures
        render_from(s, bs, k, cursor, m)->Ok_0.len() == s.len() - cursor - span_len_from(bs, k)
            + value_len_from(bs, k, m),
    decreases bs.len() - k,
{
    if k >= bs.len() {
    } else {
        lemma_render_from_len(s, bs, k + 1, bs[k].start + bs[k].len, m);
    }
}

/// The length invariant: a successful render is as long as the template,
/// less its markers, plus the values spliced in for them.
pub proof fn lemma_render_length(s: Seq<char>, m: Map<Seq<char>, Seq<char>>)
    requires
        render_result(s, m) is Ok,
    ensures
        render_result(s, m)->Ok_0.len() == s.len() - span_len_from(scan(s), 0) + value_len_from(
            scan(s),
            0,
            m,
        ),
{
    lemma_scan_wf(s);
    lemma_render_from_len(s, scan(s), 0, 0, m);
}

/// From marker `k` on, the value resolved for marker `j` stands verbatim
/// somewhere in the rendered text.
proof fn lemma_render_from_verbatim(
    s: Seq<char>,
    bs: Seq<BlockModel>,
    k: int,
    cursor: int,
    m: Map<Seq<char>, Seq<char>>,
    j: int,
)
    requires
        blocks_wf(s, bs),
        0 <= k <= j < bs.len(),
        0 <= cursor <= bs[k].start,
        render_from(s, bs, k, cursor, m) is Ok,
    ensures
        ({
            let out = render_from(s, bs, k, cursor, m)->Ok_0;
            let v = m[bs[j].key];
            exists|p: int| 0 <= p && p + v.len() <= out.len() && #[trigger] out.subrange(p, p + v.len()) == v
        }),
    decreases j - k,
{
    let out = render_from(s, bs, k, cursor, m)->Ok_0;
    let b = bs[k];
    let pre = s.subrange(cursor, b.start);
    let vk = m[b.key];
    let rest = render_from(s, bs, k + 1, b.start + b.len, m)->Ok_0;
    assert(out == pre + vk + rest);
    if j == k {
        let p = pre.len() as int;
        assert(out.subrange(p, p + vk.len()) =~= vk);
    } else {
        lemma_render_from_verbatim(s, bs, k + 1, b.start + b.len, m, j);
        let v = m[bs[j].key];
        let p0 = choose|p0: int|
            0 <= p0 && p0 + v.len() <= rest.len() && #[trigger] rest.subrange(p0, p0 + v.len())
                == v;
        let p = pre.len() + vk.len() + p0;
        assert(out.subrange(p, p + v.len()) =~= v);
    }
}

/// No double scan: the value spliced in for a marker stands in the output
/// verbatim — even when it contains `{{` or `}}`, it is never re-scanned or
/// expanded further.
pub proof fn lemma_value_verbatim(s: Seq<char>, m: Map<Seq<char>, Seq<char>>, j: int)
    requires
        render_result(s, m) is Ok,
        0 <= j < scan(s).len(),
    ensures
        ({
            let out = render_result(s, m)->Ok_0;
            let v = m[scan(s)[j].key];
            exists|p: int| 0 <= p && p + v.len() <= out.len() && #[trigger] out.subrange(p, p + v.len()) == v
        }),
{
    lemma_scan_wf(s);
    lemma_render_from_verbatim(s, scan(s), 0, 0, m, j);
}

/// The text `inner` wrapped into one placeholder marker.
pub open spec fn wrap_marker(inner: Seq<char>) -> Seq<char> {
    seq!['{', '{'] + inner + seq!['}', '}']
}

/// Inner text that stays one single marker when wrapped: no two neighbouring
/// characters of the key form a brace pair, and the key does not end in `}`
/// (which would close the marker a character early).
pub open spec fn plain_key(k: Seq<char>) -> bool {
    &&& forall|i: int| 0 <= i < k.len() - 1 ==> !(k[i] == '}' && #[trigger] k[i + 1] == '}')
    &&& forall|i: int| 0 <= i < k.len() - 1 ==> !(k[i] == '{' && #[trigger] k[i + 1] == '{')
    &&& k.len() > 0 ==> k[k.len() - 1] != '}'
}

/// Helper for the whitespace law: a template that wraps `w1 + k + w2` into
/// one marker, where `w1` and `w2` are whitespace and `k` is a plain key,
/// scans to the single whole-template marker with key `trim_seq(k)`.
proof fn lemma_scan_wrapped(k: Seq<char>, w1: Seq<char>, w2: Seq<char>)
    requires
        forall|j: int| 0 <= j < w1.len() ==> is_space(#[trigger] w1[j]),
        forall|j: int| 0 <= j < w2.len() ==> is_space(#[trigger] w2[j]),
        plain_key(k),
    ensures
        scan(wrap_marker(w1 + k + w2)) == seq![
            BlockModel {
                start: 0,
                len: wrap_marker(w1 + k + w2).len() as int,
                line: 1,
                col: 1,
                key: trim_seq(k),
            },
        ],
{
    let inner = w1 + k + w2;
    let s = wrap_marker(inner);
    assert(!is_space('{'));
    assert(!is_space('}'));
    assert(s.len() == inner.len() + 4);
    assert(s[0] == '{');
    assert(s[1] == '{');
    assert(s[s.len() - 2] == '}');
    assert(s[s.len() - 1] == '}');
    assert(forall|a: int| 0 <= a < inner.len() ==> s[a + 2] == #[trigger] inner[a]);
    // A brace inside `inner` can only stand in `k`.
    assert forall|a: int|
        0 <= a < inner.len() && ((#[trigger] inner[a]) == '{' || inner[a]
            == '}') implies w1.len() <= a < w1.len() + k.len() && inner[a] == k[a - w1.len()] by {
        if a < w1.len() {
            assert(inner[a] == w1[a]);
        } else if a < w1.len() + k.len() {
            assert(inner[a] == k[a - w1.len()]);
        } else {
            assert(inner[a] == w2[a - w1.len() - k.len()]);
        }
    }
    assert forall|i: int| 2 <= i < s.len() - 2 implies !(s[i] == '}' && #[trigger] s[i + 1]
        == '}') by {
        if s[i] == '}' {
            let a = i - 2;
            assert(inner[a] == '}');
            assert(w1.len() <= a < w1.len() + k.len());
            if i + 1 == s.len() - 2 {
                // s[i] is the last character of `inner`, hence the last of `k`.
                assert(a == inner.len() - 1);
                assert(a - w1.len() == k.len() - 1);
                assert(false);
            } else if s[i + 1] == '}' {
                let a1 = a + 1;
                assert(inner[a1] == '}');
                assert(w1.len() <= a1 < w1.len() + k.len());
                assert(k[a - w1.len()] == '}' && k[a - w1.len() + 1] == '}');
                assert(false);
            }
        }
    }
    assert forall|i: int| 2 <= i < s.len() - 2 implies !(s[i] == '{' && #[trigger] s[i + 1]
        == '{') by {
        if s[i] == '{' && s[i + 1] == '{' {
            let a = i - 2;
            assert(inner[a] == '{');
            assert(w1.len() <= a < w1.len() + k.len());
            if i + 1 == s.len() - 2 {
                assert(s[i + 1] == '}');
                assert(false);
            } else {
                let a1 = a + 1;
                assert(inner[a1] == '{');
                assert(w1.len() <= a1 < w1.len() + k.len());
                assert(k[a - w1.len()] == '{' && k[a - w1.len() + 1] == '{');
                assert(false);
            }
        }
    }
    lemma_scan_single(s);
    assert(s.subrange(2, s.len() - 2) =~= inner);
    lemma_trim_pad(w1, k, w2);
}

/// Whitespace insensitivity: wrapping a key in a marker renders the same
/// whatever whitespace padding stands around the key — when the store holds
/// the trimmed key, the output is exactly its value; when it does not, the
/// render fails at line 1, column 1 with the trimmed key.
pub proof fn lemma_whitespace_insensitive(
    k: Seq<char>,
    w1: Seq<char>,
    w2: Seq<char>,
    m: Map<Seq<char>, Seq<char>>,
)
    requires
        forall|j: int| 0 <= j < w1.len() ==> is_space(#[trigger] w1[j]),
        forall|j: int| 0 <= j < w2.len() ==> is_space(#[trigger] w2[j]),
        plain_key(k),
    ensures
        render_result(wrap_marker(w1 + k + w2), m) == render_result(wrap_marker(k), m),
        m.contains_key(trim_seq(k)) ==> render_result(wrap_marker(k), m) == Ok::<
            Seq<char>,
            ErrorModel,
        >(m[trim_seq(k)]),
        !m.contains_key(trim_seq(k)) ==> render_result(wrap_marker(k), m) == Err::<
            Seq<char>,
            ErrorModel,
        >(ErrorModel { key: trim_seq(k), line: 1, col: 1 }),
{
    lemma_scan_wrapped(k, w1, w2);
    lemma_scan_wrapped(k, Seq::empty(), Seq::empty());
    assert(Seq::empty() + k + Seq::empty() =~= k);
    lemma_single_marker_render(wrap_marker(w1 + k + w2), trim_seq(k), m);
    lemma_single_marker_render(wrap_marker(k), trim_seq(k), m);
}

/// Rendering a template whose scan is one whole-template marker at line 1,
/// column 1: the key's value alone, or the failure naming the key.
proof fn lemma_single_marker_render(s: Seq<char>, key: Seq<char>, m: Map<Seq<char>, Seq<char>>)
    requires
        scan(s) == seq![
            BlockModel { start: 0, len: s.len() as int, line: 1, col: 1, key: key },
        ],
    ensures
        m.contains_key(key) ==> render_result(s, m) == Ok::<Seq<char>, ErrorModel>(m[key]),
        !m.contains_key(key) ==> render_result(s, m) == Err::<Seq<char>, ErrorModel>(
            ErrorModel { key: key, line: 1, col: 1 },
        ),
{
    let bs = scan(s);
    assert(bs[0] == BlockModel { start: 0, len: s.len() as int, line: 1, col: 1, key: key });
    if m.contains_key(key) {
        assert(render_from(s, bs, 1, s.len() as int, m) == Ok::<Seq<char>, ErrorModel>(
            s.subrange(s.len() as int, s.len() as int),
        ));
        assert(render_result(s, m) == Ok::<Seq<char>, ErrorModel>(
            s.subrange(0, 0) + m[key] + s.subrange(s.len() as int, s.len() as int),
        ));
        assert(s.subrange(0, 0) + m[key] + s.subrange(s.len() as int, s.len() as int) =~= m[key]);
    }
}

} // verus!
