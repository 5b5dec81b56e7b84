//! Small text helpers for the chat frontend: emoji codes and image file
//! names derived from item names.
use vstd::prelude::*;
use vstd::string::StringExecFns;

verus! {

/// The character sequence with every space replaced by an underscore.
pub open spec fn underscored(s: Seq<char>) -> Seq<char> {
    s.map_values(
        |c: char|
            if c == ' ' {
                '_'
            } else {
                c
            },
    )
}

/// What str::to_lowercase returns: a function of the characters alone.
pub uninterp spec fn lower_of(s: Seq<char>) -> Seq<char>;

/// Relies on str::to_lowercase: the Unicode-lowercased string, a
/// function of the characters alone.
#[verifier::external_body]
fn lowercase(s: &str) -> (r: String)
    ensures
        r@ == lower_of(s@),
{
    s.to_lowercase()
}

/// Relies on str::replace: replacing every match of the single-space
/// pattern with an underscore maps each space character through,
/// leaving every other character alone.
#[verifier::external_body]
fn replace_spaces(s: &str) -> (r: String)
    ensures
        r@ == underscored(s@),
{
    s.replace(" ", "_")
}

/// The emoji code for an item name: the name with spaces underscored,
/// wrapped in colons.
pub fn emojify(txt: &str) -> (r: String)
    ensures
        r@ == ":"@ + underscored(txt@) + ":"@,
{
    let mut out = String::new();
    out.append(":");
    let mid = replace_spaces(txt);
    out.append(mid.as_str());
    out.append(":");
    out
}

/// The image file name for an item name: lowercased, spaces
/// underscored.
pub fn filify(txt: &str) -> (r: String)
    ensures
        r@ == underscored(lower_of(txt@)),
{
    let lowered = lowercase(txt);
    replace_spaces(lowered.as_str())
}

} // verus!
