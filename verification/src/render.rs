//! The renderer: walks a template's placeholder markers in order, copies the
//! literal text between them, and splices in the stored value of each key.
//! The first key without a stored value aborts the render with an [`Error`]
//! naming the key and the position of its opening marker; substituted values
//! are copied verbatim and never scanned for further markers.

use vstd::prelude::*;
use vstd::string::*;

use crate::error::Error;
use crate::error::ErrorModel;
use crate::scanner::blocks_wf;
use crate::scanner::parse_blocks;
use crate::scanner::scan;
use crate::scanner::views_of;
use crate::scanner::Block;
use crate::scanner::BlockModel;
use crate::store::VarjMap;

verus! {

/// The render outcome from marker `k` on, with the literal text copied up to
/// `cursor` already: either the rest of the output, or the first unresolved
/// key from there on.
pub open spec fn render_from(
    s: Seq<char>,
    bs: Seq<BlockModel>,
    k: int,
    cursor: int,
    m: Map<Seq<char>, Seq<char>>,
) -> Result<Seq<char>, ErrorModel>
    decreases bs.len() - k,
{
    if k < 0 || k >= bs.len() {
        Ok(s.subrange(cursor, s.len() as int))
    } else {
        let b = bs[k];
        if m.contains_key(b.key) {
            match render_from(s, bs, k + 1, b.start + b.len, m) {
                Ok(rest) => Ok(s.subrange(cursor, b.start) + m[b.key] + rest),
                Err(e) => Err(e),
            }
        } else {
            Err(ErrorModel { key: b.key, line: b.line, col: b.col })
        }
    }
}

/// What rendering template `s` with store `m` produces: the template with
/// every marker replaced by its key's value, or the first marker in text
/// order whose key `m` does not hold.
pub open spec fn render_result(s: Seq<char>, m: Map<Seq<char>, Seq<char>>) -> Result<
    Seq<char>,
    ErrorModel,
> {
    render_from(s, scan(s), 0, 0, m)
}

impl Block {
    /// The value stored for this marker's key, if the store holds one.
    pub fn value_from_map<'a>(&self, vars: &'a VarjMap) -> (r: Option<&'a str>)
        ensures
            match r {
                Some(v) => vars@.contains_key(self.variable_key@) && v@
                    == vars@[self.variable_key@],
                None => !vars@.contains_key(self.variable_key@),
            },
    {
        vars.get(self.variable_key.as_str())
    }
}

impl VarjMap {
    /// Render a template with its placeholder blocks replaced by set values.
    ///
    /// If no placeholder blocks (`{{ key }}`) are present in the template,
    /// returns a copy of it unchanged.
    ///
    /// Whitespace surrounding the key is ignored: `{{key}}` and `{{ key }}`
    /// are equal.
    ///
    /// # Errors
    ///
    /// Will return an [`Error`] if the template contains a key that is not
    /// set, naming the first such key and the position of its marker.
    pub fn render(&self, template: &str) -> (r: Result<String, Error>)
        ensures
            match r {
                Ok(out) => render_result(template@, self@) == Ok::<Seq<char>, ErrorModel>(out@),
                Err(e) => render_result(template@, self@) == Err::<Seq<char>, ErrorModel>(e@),
            },
    {
        let ghost s = template@;
        let ghost m = self@;
        let blocks = parse_blocks(template);
        let ghost bs = views_of(blocks@);
        let total = template.unicode_len();

        let mut output = String::new();
        let mut idx: usize = 0;
        let mut k: usize = 0;
        let n = blocks.len();
        while k < n
            invariant
                s == template@,
                total == s.len(),
                m == self@,
                bs == scan(s),
                bs == views_of(blocks@),
                blocks_wf(s, bs),
                n == blocks@.len(),
                k <= n,
                idx <= s.len(),
                k < n ==> idx <= bs[k as int].start,
                render_from(s, bs, k as int, idx as int, m) is Ok ==> render_result(s, m)
                    == Ok::<Seq<char>, ErrorModel>(
                    output@ + render_from(s, bs, k as int, idx as int, m)->Ok_0,
                ),
                render_from(s, bs, k as int, idx as int, m) is Err ==> render_result(s, m)
                    == render_from(s, bs, k as int, idx as int, m),
            decreases n - k,
        {
            let b = &blocks[k];
            proof {
                assert(b@ == bs[k as int]);
            }
            let ghost out0 = output@;
            let ghost idx0 = idx as int;
            let prefix = template.substring_char(idx, b.start);
            output.append(prefix);
            match b.value_from_map(self) {
                Some(value) => {
                    output.append(value);
                },
                None => {
                    return Err(
                        Error { key: b.variable_key.clone(), line: b.line, col: b.col },
                    );
                },
            }
            idx = b.start + b.len;
            k += 1;
            proof {
                let fr2 = render_from(s, bs, k as int, idx as int, m);
                if fr2 is Ok {
                    assert(out0 + (s.subrange(idx0, b@.start) + m[b@.key] + fr2->Ok_0) =~= output@
                        + fr2->Ok_0);
                }
            }
        }
        let tail = template.substring_char(idx, total);
        output.append(tail);
        Ok(output)
    }
}

} // verus!
