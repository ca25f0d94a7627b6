//! The text token grammar for one exported platform entity.

use vstd::prelude::*;
use vstd::string::StringExecFns;

verus! {

/// The token text for one entity whose eight numeric fields have already been
/// rendered as text: position, size, the constant type tag `1`, and the three
/// color channels, each field separated by `;` and the token closed by `;|`.
pub open spec fn token_text(
    xs: Seq<char>,
    ys: Seq<char>,
    ws: Seq<char>,
    hs: Seq<char>,
    rs: Seq<char>,
    gs: Seq<char>,
    bs: Seq<char>,
) -> Seq<char> {
    "X:"@ + xs + ";Y:"@ + ys + ";W:"@ + ws + ";H:"@ + hs + ";T:1;R:"@ + rs + ";G:"@ + gs
        + ";B:"@ + bs + ";|"@
}

/// Renders one entity token from the already-rendered text of its numeric
/// fields, following the exact output grammar
/// `X:<x>;Y:<y>;W:<w>;H:<h>;T:1;R:<r>;G:<g>;B:<b>;|`.
pub fn make_token(xs: &str, ys: &str, ws: &str, hs: &str, rs: &str, gs: &str, bs: &str) -> (t:
    String)
    ensures
        t@ == token_text(xs@, ys@, ws@, hs@, rs@, gs@, bs@),
{
    let mut t = String::new();
    t.append("X:");
    t.append(xs);
    t.append(";Y:");
    t.append(ys);
    t.append(";W:");
    t.append(ws);
    t.append(";H:");
    t.append(hs);
    t.append(";T:1;R:");
    t.append(rs);
    t.append(";G:");
    t.append(gs);
    t.append(";B:");
    t.append(bs);
    t.append(";|");
    t
}

} // verus!
