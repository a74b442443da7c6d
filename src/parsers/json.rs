//! The palette as a pretty-printed JSON array of hexadecimal strings.
use vstd::prelude::*;

use crate::color::{hex_string, HexColor};
use crate::parsers::PalleteParser;

verus! {

#[verifier::external_type_specification]
#[verifier::external_body]
pub struct ExJsonError(serde_json::Error);

/// The pretty-printed JSON array whose elements are the given strings.
pub uninterp spec fn pretty_json_of(items: Seq<Seq<char>>) -> Seq<char>;

/// Relies on serde_json::to_string_pretty: the pretty-printed JSON text of
/// the array of strings, which depends on the strings alone. It fails only
/// where a `Serialize` impl fails or a map has non-string keys; strings
/// serialize without failing and the output buffer is a `Vec<u8>`, so an
/// array of strings always encodes.
#[verifier::external_body]
fn to_pretty_json(items: &Vec<String>) -> (r: Result<String, serde_json::Error>)
    ensures
        r is Ok,
        r->Ok_0@ == pretty_json_of(string_views(items@)),
{
    serde_json::to_string_pretty(items)
}

/// The text of each string of `v`, in order.
pub open spec fn string_views(v: Seq<String>) -> Seq<Seq<char>> {
    v.map_values(|s: String| s@)
}

/// The hexadecimal form of each color of `p`, in order.
pub open spec fn hex_strings(p: Seq<HexColor>) -> Seq<Seq<char>> {
    p.map_values(|c: HexColor| hex_string(c))
}

/// Writes a palette as a JSON array of `#RRGGBB` strings.
pub struct JsonParser {}

impl JsonParser {
    /// The pretty-printed JSON array of the colors' hexadecimal forms, in
    /// palette order.
    pub fn to_json(pallete: &[HexColor]) -> (r: Option<String>)
        ensures
            r is Some,
            r->Some_0@ == pretty_json_of(hex_strings(pallete@)),
    {
        let mut items: Vec<String> = Vec::new();
        let mut i: usize = 0;
        while i < pallete.len()
            invariant
                0 <= i <= pallete@.len(),
                items@.len() == i,
                forall|j: int| 0 <= j < i ==> (#[trigger] items@[j])@ == hex_string(pallete@[j]),
            decreases pallete@.len() - i,
        {
            let text = pallete[i].to_hex_string();
            items.push(text);
            i = i + 1;
        }
        proof {
            assert(string_views(items@) =~= hex_strings(pallete@));
        }
        match to_pretty_json(&items) {
            Ok(text) => Some(text),
            Err(_) => None,
        }
    }
}

impl PalleteParser for JsonParser {
    fn render(pallete: &[HexColor]) -> Option<String> {
        JsonParser::to_json(pallete)
    }
}

} // verus!
