//! Rendering of the serialized schema bundle as a byte-array literal inside
//! generated source, and decimal rendering of integers.
use vstd::prelude::*;
use crate::bundle::{json_object_text, map_of, SchemaBundle};
use crate::codegen::fill_template;
use crate::error::BuildError;
use crate::text::{occurs_in, replace_all};
use vstd::utf8::encode_utf8;

verus! {

pub open spec fn digit(d: int) -> char {
    seq!['0', '1', '2', '3', '4', '5', '6', '7', '8', '9'][d]
}

/// The decimal digits of `n`, without leading zeros.
pub open spec fn decimal(n: nat) -> Seq<char>
    decreases n,
{
    if n < 10 {
        seq![digit(n as int)]
    } else {
        decimal(n / 10) + seq![digit((n % 10) as int)]
    }
}

/// The decimal renderings of the bytes, separated by `, `.
pub open spec fn byte_list(bs: Seq<u8>) -> Seq<char>
    decreases bs.len(),
{
    if bs.len() == 0 {
        Seq::empty()
    } else if bs.len() == 1 {
        decimal(bs[0] as nat)
    } else {
        byte_list(bs.drop_last()) + seq![',', ' '] + decimal(bs.last() as nat)
    }
}

/// The bytes as an array literal: `[123, 34, 125]`.
pub open spec fn bytes_literal(bs: Seq<u8>) -> Seq<char> {
    seq!['['] + byte_list(bs) + seq![']']
}

/// The placeholder of the embedding template.
pub open spec fn bytes_placeholder() -> Seq<char> {
    "{SCHEMA_FILES_BYTES}"@
}

fn digit_str(d: u64) -> (r: &'static str)
    requires
        d < 10,
    ensures
        r@ == seq![digit(d as int)],
{
    let digits = "0123456789";
    proof {
        reveal_strlit("0123456789");
    }
    let r = digits.substring_char(d as usize, d as usize + 1);
    assert(r@ =~= seq![digit(d as int)]);
    r
}

/// The decimal rendering of `n`.
pub fn decimal_string(n: u64) -> (r: String)
    ensures
        r@ == decimal(n as nat),
    decreases n,
{
    if n < 10 {
        String::from_str(digit_str(n))
    } else {
        let mut s = decimal_string(n / 10);
        s.append(digit_str(n % 10));
        s
    }
}

/// The bytes as an array literal, as `{:?}` prints a byte slice.
pub fn render_bytes(bs: &[u8]) -> (r: String)
    ensures
        r@ == bytes_literal(bs@),
{
    let mut out = String::new();
    let mut i: usize = 0;
    proof {
        reveal_strlit("[");
        reveal_strlit("]");
    }
    while i < bs.len()
        invariant
            i <= bs@.len(),
            out@ == byte_list(bs@.subrange(0, i as int)),
        decreases bs@.len() - i,
    {
        let ghost pre = bs@.subrange(0, i as int);
        let ghost post = bs@.subrange(0, i as int + 1);
        assert(post.drop_last() =~= pre);
        assert(post.last() == bs@[i as int]);
        proof {
            reveal_strlit(", ");
        }
        assert(", "@ =~= seq![',', ' ']);
        if i > 0 {
            out.append(", ");
        } else {
            assert(pre.len() == 0);
        }
        let d = decimal_string(bs[i] as u64);
        out.append(d.as_str());
        assert(out@ =~= byte_list(post));
        i = i + 1;
    }
    assert(bs@.subrange(0, i as int) =~= bs@);
    let mut r = String::from_str("[");
    r.append(out.as_str());
    r.append("]");
    assert(r@ =~= bytes_literal(bs@));
    r
}

/// Generates the schema-embedding source: the bundle serialized once as
/// JSON, its UTF-8 bytes written as an array literal in place of
/// `{SCHEMA_FILES_BYTES}`.
pub fn generate_embedded_code(template: &str, bundle: &SchemaBundle) -> (r: Result<String, BuildError>)
    requires
        bundle.wf(),
    ensures
        r is Ok <==> occurs_in(template@, bytes_placeholder()),
        r matches Ok(s) ==> s@ == replace_all(
            template@,
            bytes_placeholder(),
            bytes_literal(encode_utf8(json_object_text(map_of(bundle@)))),
        ),
        !occurs_in(template@, bytes_placeholder()) ==> r is Err,
        r matches Err(e) ==> e is Json || (e is Template && !occurs_in(template@, bytes_placeholder())),
{
    let json = bundle.to_json()?;
    let literal = render_bytes(json.as_str().as_bytes());
    proof {
        reveal_strlit("{SCHEMA_FILES_BYTES}");
    }
    fill_template(template, "{SCHEMA_FILES_BYTES}", literal.as_str())
}

} // verus!
