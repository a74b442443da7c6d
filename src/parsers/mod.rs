//! Output formats of a palette and the text that each renders.
use vstd::prelude::*;

use crate::color::HexColor;

pub mod json;
pub mod svg;

pub use json::JsonParser;
pub use svg::SvgParser;

verus! {

/// Renders a palette as the text of one output format.
pub trait PalleteParser {
    /// The document for `pallete`; `None` where the format's encoder fails.
    fn render(pallete: &[HexColor]) -> Option<String>;
}

/// The formats a palette can be written in.
#[derive(Clone, Copy, Debug, PartialEq, Eq, Structural)]
pub enum OutputFormat {
    Svg,
    Json,
}

impl OutputFormat {
    /// `svg` and `json` name the two formats; any other text is refused.
    pub fn from_name(s: &str) -> (r: Result<OutputFormat, &'static str>)
        ensures
            s@ == "svg"@ ==> r == Ok::<OutputFormat, &'static str>(OutputFormat::Svg),
            s@ == "json"@ ==> r == Ok::<OutputFormat, &'static str>(OutputFormat::Json),
            s@ != "svg"@ && s@ != "json"@ ==> r is Err && r->Err_0@
                == "Failed to parse Output Format "@,
    {
        proof {
            reveal_strlit("svg");
            reveal_strlit("json");
            assert("svg"@.len() != "json"@.len());
        }
        let owned = s.to_owned();
        let svg = String::from_str("svg");
        let json = String::from_str("json");
        if owned == svg {
            Ok(OutputFormat::Svg)
        } else if owned == json {
            Ok(OutputFormat::Json)
        } else {
            Err("Failed to parse Output Format ")
        }
    }
}

impl std::str::FromStr for OutputFormat {
    type Err = &'static str;

    fn from_str(s: &str) -> Result<OutputFormat, &'static str> {
        OutputFormat::from_name(s)
    }
}

} // verus!
