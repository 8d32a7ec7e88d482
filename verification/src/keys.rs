use convert_case::Casing;

use crate::store::KeyKind;
use vstd::prelude::*;
use vstd::string::StringExecFns;

verus! {

/// The camelCase rendering of a feed name, used to namespace store keys.
pub uninterp spec fn camel_of(s: Seq<char>) -> Seq<char>;

/// Relies on convert_case's `Casing::to_case` with `Case::Camel`: the
/// result depends on the input characters alone.
#[verifier::external_body]
fn to_camel(s: &String) -> (r: String)
    ensures
        r@ == camel_of(s@),
{
    s.to_case(convert_case::Case::Camel)
}

/// The full text of a row key: fixed prefix, camelCased feed name, and a
/// suffix naming the row's kind.
pub open spec fn key_text(feed: Seq<char>, kind: KeyKind) -> Seq<char> {
    "wsj-rss."@ + camel_of(feed) + (match kind {
        KeyKind::Watermark => ".last_build_date"@,
        KeyKind::Lock => ".lock"@,
    })
}

/// Renders the key under which a feed's row of the given kind is stored
/// in the external two-column table.
pub fn storage_key(feed: &String, kind: KeyKind) -> (r: String)
    ensures
        r@ == key_text(feed@, kind),
{
    let mut s = String::from_str("wsj-rss.");
    let camel = to_camel(feed);
    s.append(camel.as_str());
    match kind {
        KeyKind::Watermark => s.append(".last_build_date"),
        KeyKind::Lock => s.append(".lock"),
    }
    proof {
        assert(s@ =~= key_text(feed@, kind));
    }
    s
}

} // verus!
