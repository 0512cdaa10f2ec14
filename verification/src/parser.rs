//! Rendering ingested sources as plain text. Fetching an OpenAPI document
//! and decoding its JSON are the work of external collaborators; this
//! module renders the decoded operations into the retrieval corpus.

use vstd::prelude::*;
use crate::errors::Error;
use crate::textutil::chars_of;

verus! {

/// One operation of an OpenAPI document, as plain values: the HTTP
/// method, the route path, and the optional summary line.
pub struct ApiOperation {
    pub method: String,
    pub path: String,
    pub summary: Option<String>,
}

/// ASCII uppercase of one character; anything but a lowercase ASCII
/// letter is kept as it is. The corpus uppercases only HTTP method
/// names, which are ASCII on the wire, so no Unicode case fold is done.
pub open spec fn spec_upper_char(c: char) -> char {
    if 'a' <= c && c <= 'z' {
        (((c as u8) - 32) as char)
    } else {
        c
    }
}

/// ASCII uppercase of a text.
pub open spec fn spec_upper(s: Seq<char>) -> Seq<char> {
    s.map_values(|c: char| spec_upper_char(c))
}

/// One rendered corpus line for one operation: the uppercased method, the
/// path, and the summary (or a placeholder).
pub open spec fn spec_operation_line(op: ApiOperation) -> Seq<char> {
    spec_upper(op.method@) + " "@ + op.path@ + ": "@ + (match op.summary {
        Some(s) => s@,
        None => "No summary"@,
    }) + "\n"@
}

/// The whole rendered corpus: one line per operation, in the order given.
pub open spec fn spec_render_openapi(ops: Seq<ApiOperation>) -> Seq<char>
    decreases ops.len(),
{
    if ops.len() == 0 {
        Seq::empty()
    } else {
        spec_operation_line(ops[0]) + spec_render_openapi(ops.drop_first())
    }
}

proof fn lemma_render_openapi_concat(a: Seq<ApiOperation>, b: Seq<ApiOperation>)
    ensures
        spec_render_openapi(a + b) == spec_render_openapi(a) + spec_render_openapi(b),
    decreases a.len(),
{
    if a.len() == 0 {
        assert(a + b =~= b);
        assert(Seq::<char>::empty() + spec_render_openapi(b) =~= spec_render_openapi(b));
    } else {
        assert((a + b)[0] == a[0]);
        assert((a + b).drop_first() =~= a.drop_first() + b);
        lemma_render_openapi_concat(a.drop_first(), b);
        assert(spec_operation_line(a[0]) + (spec_render_openapi(a.drop_first())
            + spec_render_openapi(b)) =~= (spec_operation_line(a[0]) + spec_render_openapi(
            a.drop_first(),
        )) + spec_render_openapi(b));
    }
}

/// Uppercases the ASCII letters of a text.
fn upper_ascii(s: &str) -> (r: String)
    ensures
        r@ == spec_upper(s@),
{
    let cs = chars_of(s);
    let mut out: Vec<char> = Vec::new();
    let mut i: usize = 0;
    while i < cs.len()
        invariant
            cs@ == s@,
            i <= cs@.len(),
            out@ == spec_upper(s@).take(i as int),
        decreases cs@.len() - i,
    {
        let c = cs[i];
        let u: char = if 'a' <= c && c <= 'z' {
            ((c as u8) - 32) as char
        } else {
            c
        };
        out.push(u);
        proof {
            assert(u == spec_upper_char(c));
            assert(out@ =~= spec_upper(s@).take(i + 1));
        }
        i = i + 1;
    }
    proof {
        assert(spec_upper(s@).take(cs@.len() as int) =~= spec_upper(s@));
    }
    crate::textutil::string_from_chars(&out)
}

/// Renders decoded OpenAPI operations into the plain-text corpus, one
/// line per operation, in the order given.
#[verifier::loop_isolation(false)]
pub fn render_openapi(ops: &Vec<ApiOperation>) -> (r: String)
    ensures
        r@ == spec_render_openapi(ops@),
{
    let mut out = String::new();
    proof {
        assert(ops@.take(0) =~= Seq::<ApiOperation>::empty());
    }
    let mut i: usize = 0;
    while i < ops.len()
        invariant
            i <= ops@.len(),
            out@ == spec_render_openapi(ops@.take(i as int)),
        decreases ops@.len() - i,
    {
        let ghost pre = out@;
        let ghost op = ops@[i as int];
        let up = upper_ascii(ops[i].method.as_str());
        let mut line = String::new();
        line.append(up.as_str());
        line.append(" ");
        line.append(ops[i].path.as_str());
        line.append(": ");
        match &ops[i].summary {
            Some(s) => {
                line.append(s.as_str());
                proof {
                    assert(op.summary matches Some(t) && t@ == s@);
                }
            },
            None => {
                line.append("No summary");
                proof {
                    assert(op.summary is None);
                }
            },
        }
        line.append("\n");
        proof {
            assert(line@ =~= spec_operation_line(op));
        }
        out.append(line.as_str());
        proof {
            assert(out@ =~= pre + spec_operation_line(ops@[i as int]));
            assert(ops@.take(i + 1) =~= ops@.take(i as int) + seq![ops@[i as int]]);
            lemma_render_openapi_concat(ops@.take(i as int), seq![ops@[i as int]]);
            assert(seq![ops@[i as int]].drop_first() =~= Seq::<ApiOperation>::empty());
            assert(spec_render_openapi(Seq::<ApiOperation>::empty()) == Seq::<char>::empty());
            assert(spec_render_openapi(seq![ops@[i as int]]) =~= spec_operation_line(
                ops@[i as int],
            ));
        }
        i = i + 1;
    }
    proof {
        assert(ops@.take(ops@.len() as int) =~= ops@);
    }
    out
}

/// Renders a codebase as corpus text. The current extraction renders
/// every codebase to the fixed text "Test".
pub fn parse_codebase(root_path: &str) -> (r: Result<String, Error>)
    ensures
        r matches Ok(s) && s@ == "Test"@,
{
    Ok(String::from_str("Test"))
}

} // verus!
