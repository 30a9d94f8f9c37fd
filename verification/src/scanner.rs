//! The scanner: finds every `{{ key }}` placeholder marker in a template and
//! records, for each, where it stands and which key it names.
//!
//! The executable scanner is [`parse_blocks`]; its mathematical counterpart is
//! [`scan`], a state machine over the template's characters.  A marker opens
//! at `{{` and closes at the next `}}`; a `{` or `}` that is not immediately
//! followed by its twin is ordinary text.  A second `{{` before a marker has
//! closed restarts the marker there, and a marker still open at the end of
//! the input is dropped without effect.

use vstd::prelude::*;
use vstd::string::*;

use crate::text::is_space;
use crate::text::is_space_char;
use crate::text::lemma_trim_range;
use crate::text::to_char_vec;
use crate::text::trim_seq;

verus! {

/// One placeholder marker found in a template.
///
/// `start` is the offset of the marker's first `{` in the template's
/// characters, and `len` the number of characters from there through the
/// closing `}}` inclusive.  `line` and `column` are the 1-based position of
/// the opening `{`, counting a character per column and starting a new line
/// after each `'\n'`.  `variable_key` is the text between the braces with
/// surrounding whitespace removed.
#[derive(Debug, PartialEq)]
pub struct Block {
    pub start: usize,
    pub len: usize,
    pub line: usize,
    pub col: usize,
    pub variable_key: String,
}

/// The mathematical image of a [`Block`].
pub ghost struct BlockModel {
    pub start: int,
    pub len: int,
    pub line: int,
    pub col: int,
    pub key: Seq<char>,
}

impl View for Block {
    type V = BlockModel;

    open spec fn view(&self) -> BlockModel {
        BlockModel {
            start: self.start as int,
            len: self.len as int,
            line: self.line as int,
            col: self.col as int,
            key: self.variable_key@,
        }
    }
}

/// The models of a sequence of blocks.
pub open spec fn views_of(blocks: Seq<Block>) -> Seq<BlockModel> {
    blocks.map_values(|b: Block| b@)
}

/// The scanner's state before it visits one more character: `i` is the next
/// position; `line` and `col` the position counters after the characters
/// already visited; when `in_block` holds, a marker opened at `start`, whose
/// `{` stood at line `bline`, column `bcol`, and has not closed yet.
pub ghost struct ScanState {
    pub i: int,
    pub in_block: bool,
    pub start: int,
    pub bline: int,
    pub bcol: int,
    pub line: int,
    pub col: int,
}

/// The state the scanner starts from.
pub open spec fn initial_scan_state() -> ScanState {
    ScanState { i: 0, in_block: false, start: 0, bline: 1, bcol: 0, line: 1, col: 0 }
}

/// The markers the scanner emits from state `st` to the end of `s`.
///
/// Each visited character advances the column count (a `'\n'` instead starts
/// the next line at column zero).  Inside a marker, a `}` followed by another
/// `}` closes it and emits a block whose key is the trimmed text strictly
/// between the brace pairs; a `{` followed by another `{` (re)opens a marker
/// at the current position.  The second character of either pair is consumed
/// with the pair.  Everything else is literal text.
pub open spec fn scan_at(s: Seq<char>, st: ScanState) -> Seq<BlockModel>
    decreases s.len() - st.i,
{
    if st.i < 0 || st.i >= s.len() {
        Seq::empty()
    } else {
        let c = s[st.i];
        let line1 = if c == '\n' {
            st.line + 1
        } else {
            st.line
        };
        let col1 = if c == '\n' {
            0
        } else {
            st.col + 1
        };
        if st.in_block && c == '}' && st.i + 1 < s.len() && s[st.i + 1] == '}' {
            let blk = BlockModel {
                start: st.start,
                len: st.i + 2 - st.start,
                line: st.bline,
                col: st.bcol,
                key: trim_seq(s.subrange(st.start + 2, st.i)),
            };
            seq![blk] + scan_at(
                s,
                ScanState {
                    i: st.i + 2,
                    in_block: false,
                    start: st.start,
                    bline: st.bline,
                    bcol: st.bcol,
                    line: line1,
                    col: col1 + 1,
                },
            )
        } else if c == '{' && st.i + 1 < s.len() && s[st.i + 1] == '{' {
            scan_at(
                s,
                ScanState {
                    i: st.i + 2,
                    in_block: true,
                    start: st.i,
                    bline: line1,
                    bcol: col1,
                    line: line1,
                    col: col1 + 1,
                },
            )
        } else {
            scan_at(
                s,
                ScanState {
                    i: st.i + 1,
                    in_block: st.in_block,
                    start: st.start,
                    bline: st.bline,
                    bcol: st.bcol,
                    line: line1,
                    col: col1,
                },
            )
        }
    }
}

/// The ordered markers of template `s`.
pub open spec fn scan(s: Seq<char>) -> Seq<BlockModel> {
    scan_at(s, initial_scan_state())
}

/// What holds of every scan result: each marker is at least `{{}}` long,
/// lies inside the template, stands at a 1-based line and column, and markers
/// follow one another without overlap.
pub open spec fn blocks_wf(s: Seq<char>, bs: Seq<BlockModel>) -> bool {
    &&& forall|j: int|
        0 <= j < bs.len() ==> {
            &&& (#[trigger] bs[j]).start >= 0
            &&& bs[j].len >= 4
            &&& bs[j].start + bs[j].len <= s.len()
            &&& bs[j].line >= 1
            &&& bs[j].col >= 1
        }
    &&& forall|j: int| 0 <= j < bs.len() - 1 ==> (#[trigger] bs[j]).start + bs[j].len <= bs[j
        + 1].start
}

/// A state the scanner can actually reach: the position counters never fall
/// below their starting values, and the open marker, if any, started at least
/// two characters back, at a 1-based line and column.
pub open spec fn state_wf(st: ScanState) -> bool {
    &&& st.i >= 0
    &&& st.line >= 1
    &&& st.col >= 0
    &&& st.in_block ==> 0 <= st.start && st.start + 2 <= st.i && st.bline >= 1 && st.bcol >= 1
}

/// From any reachable state the scan result is well formed, and its first
/// marker does not start before the open marker (or, with none open, before
/// the current position).
pub proof fn lemma_scan_at_wf(s: Seq<char>, st: ScanState)
    requires
        state_wf(st),
    ensures
        blocks_wf(s, scan_at(s, st)),
        scan_at(s, st).len() > 0 ==> scan_at(s, st)[0].start >= (if st.in_block {
            st.start
        } else {
            st.i
        }),
    decreases s.len() - st.i,
{
    if st.i < 0 || st.i >= s.len() {
    } else {
        let c = s[st.i];
        let line1 = if c == '\n' {
            st.line + 1
        } else {
            st.line
        };
        let col1 = if c == '\n' {
            0
        } else {
            st.col + 1
        };
        if st.in_block && c == '}' && st.i + 1 < s.len() && s[st.i + 1] == '}' {
            let st2 = ScanState {
                i: st.i + 2,
                in_block: false,
                start: st.start,
                bline: st.bline,
                bcol: st.bcol,
                line: line1,
                col: col1 + 1,
            };
            lemma_scan_at_wf(s, st2);
        } else if c == '{' && st.i + 1 < s.len() && s[st.i + 1] == '{' {
            let st2 = ScanState {
                i: st.i + 2,
                in_block: true,
                start: st.i,
                bline: line1,
                bcol: col1,
                line: line1,
                col: col1 + 1,
            };
            lemma_scan_at_wf(s, st2);
        } else {
            let st2 = ScanState {
                i: st.i + 1,
                in_block: st.in_block,
                start: st.start,
                bline: st.bline,
                bcol: st.bcol,
                line: line1,
                col: col1,
            };
            lemma_scan_at_wf(s, st2);
        }
    }
}

/// The markers of any template are well formed.
pub proof fn lemma_scan_wf(s: Seq<char>)
    ensures
        blocks_wf(s, scan(s)),
{
    lemma_scan_at_wf(s, initial_scan_state());
}

/// Scanning onward inside the one marker of a template that is a single
/// marker: no character before the closing pair forms a second pair, so
/// exactly that marker is emitted.
proof fn lemma_scan_inside_single(s: Seq<char>, st: ScanState)
    requires
        2 <= st.i <= s.len() - 2,
        st.in_block,
        st.start == 0,
        st.bline == 1,
        st.bcol == 1,
        s[s.len() - 2] == '}',
        s[s.len() - 1] == '}',
        forall|i: int| st.i <= i < s.len() - 2 ==> !(s[i] == '}' && #[trigger] s[i + 1] == '}'),
        forall|i: int| st.i <= i < s.len() - 2 ==> !(s[i] == '{' && #[trigger] s[i + 1] == '{'),
    ensures
        scan_at(s, st) == seq![
            BlockModel {
                start: 0,
                len: s.len() as int,
                line: 1,
                col: 1,
                key: trim_seq(s.subrange(2, s.len() - 2)),
            },
        ],
    decreases s.len() - st.i,
{
    let blk = BlockModel {
        start: 0,
        len: s.len() as int,
        line: 1,
        col: 1,
        key: trim_seq(s.subrange(2, s.len() - 2)),
    };
    let c = s[st.i];
    let line1 = if c == '\n' {
        st.line + 1
    } else {
        st.line
    };
    let col1 = if c == '\n' {
        0
    } else {
        st.col + 1
    };
    if st.i == s.len() - 2 {
        let st2 = ScanState {
            i: st.i + 2,
            in_block: false,
            start: st.start,
            bline: st.bline,
            bcol: st.bcol,
            line: line1,
            col: col1 + 1,
        };
        assert(scan_at(s, st2) == Seq::<BlockModel>::empty());
        assert(scan_at(s, st) == seq![blk] + scan_at(s, st2));
        assert(seq![blk] + scan_at(s, st2) =~= seq![blk]);
    } else {
        assert(!(s[st.i] == '}' && s[st.i + 1] == '}'));
        assert(!(s[st.i] == '{' && s[st.i + 1] == '{'));
        lemma_scan_inside_single(
            s,
            ScanState {
                i: st.i + 1,
                in_block: st.in_block,
                start: st.start,
                bline: st.bline,
                bcol: st.bcol,
                line: line1,
                col: col1,
            },
        );
    }
}

/// A template that is one whole marker — `{{`, then text in which no two
/// neighbouring characters form a brace pair, then `}}` — scans to exactly
/// one block: the whole template, at line 1, column 1, with the trimmed
/// inner text as its key.
pub proof fn lemma_scan_single(s: Seq<char>)
    requires
        s.len() >= 4,
        s[0] == '{',
        s[1] == '{',
        s[s.len() - 2] == '}',
        s[s.len() - 1] == '}',
        forall|i: int| 2 <= i < s.len() - 2 ==> !(s[i] == '}' && #[trigger] s[i + 1] == '}'),
        forall|i: int| 2 <= i < s.len() - 2 ==> !(s[i] == '{' && #[trigger] s[i + 1] == '{'),
    ensures
        scan(s) == seq![
            BlockModel {
                start: 0,
                len: s.len() as int,
                line: 1,
                col: 1,
                key: trim_seq(s.subrange(2, s.len() - 2)),
            },
        ],
{
    lemma_scan_inside_single(
        s,
        ScanState { i: 2, in_block: true, start: 0, bline: 1, bcol: 1, line: 1, col: 2 },
    );
}

/// The bounds that trimming leaves of the character range `[a, b)` of `v`:
/// the range from the first non-whitespace character through the last one.
fn trim_range(v: &Vec<char>, a: usize, b: usize) -> (r: (usize, usize))
    requires
        a <= b <= v@.len(),
    ensures
        a <= r.0 <= r.1 <= b,
        trim_seq(v@.subrange(a as int, b as int)) == v@.subrange(r.0 as int, r.1 as int),
{
    let mut lo = a;
    while lo < b && is_space_char(v[lo])
        invariant
            a <= lo <= b <= v@.len(),
            forall|j: int| a <= j < lo ==> is_space(v@[j]),
        decreases b - lo,
    {
        lo += 1;
    }
    let mut hi = b;
    while hi > lo && is_space_char(v[hi - 1])
        invariant
            lo <= hi <= b <= v@.len(),
            forall|j: int| hi <= j < b ==> is_space(v@[j]),
        decreases hi,
    {
        hi -= 1;
    }
    proof {
        let sub = v@.subrange(a as int, b as int);
        if lo == hi && lo < b {
            assert(is_space(v@[lo as int]));
            assert(false);
        }
        lemma_trim_range(sub, lo - a, hi - a);
        assert(sub.subrange(lo - a, hi - a) =~= v@.subrange(lo as int, hi as int));
    }
    (lo, hi)
}

/// Scans `template` and returns its placeholder markers, in the order they
/// stand in the text.
pub fn parse_blocks(template: &str) -> (blocks: Vec<Block>)
    ensures
        views_of(blocks@) == scan(template@),
        blocks_wf(template@, views_of(blocks@)),
{
    let ghost s = template@;
    let v = to_char_vec(template);
    let n = v.len();

    let mut blocks: Vec<Block> = Vec::new();
    let mut in_block = false;
    let mut idx_start: usize = 0;
    // The 1-based line number is `newlines + 1`; only the count is kept, so
    // that the counter stays below the line numbers it yields.
    let mut newlines: usize = 0;
    let mut line_start: usize = 1;
    let mut col: usize = 0;
    let mut col_start: usize = 0;
    let mut i: usize = 0;

    while i < n
        invariant
            s == template@,
            v@ == s,
            n == s.len(),
            i <= n,
            col <= i,
            newlines <= i,
            in_block ==> idx_start + 2 <= i,
            scan(s) == views_of(blocks@) + scan_at(
                s,
                ScanState {
                    i: i as int,
                    in_block: in_block,
                    start: idx_start as int,
                    bline: line_start as int,
                    bcol: col_start as int,
                    line: newlines as int + 1,
                    col: col as int,
                },
            ),
        decreases n - i,
    {
        let ghost st = ScanState {
            i: i as int,
            in_block: in_block,
            start: idx_start as int,
            bline: line_start as int,
            bcol: col_start as int,
            line: newlines as int + 1,
            col: col as int,
        };
        let c = v[i];
        col += 1;
        if c == '\n' {
            newlines += 1;
            col = 0;
        }
        if in_block && c == '}' && i + 1 < n && v[i + 1] == '}' {
            let (lo, hi) = trim_range(&v, idx_start + 2, i);
            let key = template.substring_char(lo, hi).to_owned();
            let blk = Block {
                start: idx_start,
                len: i + 2 - idx_start,
                line: line_start,
                col: col_start,
                variable_key: key,
            };
            proof {
                assert(blk@ == scan_at(s, st)[0]);
                assert(views_of(blocks@.push(blk)) =~= views_of(blocks@) + seq![blk@]);
            }
            blocks.push(blk);
            in_block = false;
            col += 1;
            i += 2;
        } else if c == '{' && i + 1 < n && v[i + 1] == '{' {
            idx_start = i;
            line_start = newlines + 1;
            col_start = col;
            in_block = true;
            col += 1;
            i += 2;
        } else {
            i += 1;
        }
    }
    proof {
        assert(views_of(blocks@) + scan_at(
            s,
            ScanState {
                i: i as int,
                in_block: in_block,
                start: idx_start as int,
                bline: line_start as int,
                bcol: col_start as int,
                line: newlines as int + 1,
                col: col as int,
            },
        ) =~= views_of(blocks@));
        lemma_scan_wf(s);
    }
    blocks
}

} // verus!
