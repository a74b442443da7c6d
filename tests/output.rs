use roloc::parsers::{JsonParser, OutputFormat, PalleteParser, SvgParser};
use roloc::HexColor;

#[test]
fn output_format_names() {
    assert_eq!(OutputFormat::from_name("svg"), Ok(OutputFormat::Svg));
    assert_eq!(OutputFormat::from_name("json"), Ok(OutputFormat::Json));
    assert_eq!(OutputFormat::from_name("png"), Err("Failed to parse Output Format "));
    assert_eq!(OutputFormat::from_name("SVG"), Err("Failed to parse Output Format "));
    assert_eq!("json".parse::<OutputFormat>(), Ok(OutputFormat::Json));
}

#[test]
fn json_lists_hex_strings() {
    let palette = vec![HexColor { r: 0, g: 0, b: 0 }, HexColor { r: 255, g: 255, b: 255 }];
    assert_eq!(
        JsonParser::to_json(&palette).unwrap(),
        "[\n  \"#000000\",\n  \"#FFFFFF\"\n]"
    );
    assert_eq!(JsonParser::to_json(&[]).unwrap(), "[]");
    assert_eq!(
        JsonParser::render(&palette),
        Some("[\n  \"#000000\",\n  \"#FFFFFF\"\n]".to_string())
    );
}

#[test]
fn svg_document_for_two_colors() {
    let palette = vec![HexColor { r: 10, g: 20, b: 30 }, HexColor { r: 255, g: 0, b: 128 }];
    let expected = "<svg width=\"100\" height=\"140\" xmlns=\"http://www.w3.org/2000/svg\">\n             <style>\n                .label { font-family: sans-serif; font-size: 14px; fill: #000; }\n             </style>\n<rect x=\"0\" y=\"0\" width=\"100\" height=\"60\" fill=\"#0A141E\" />\n<text x=\"5\" y=\"37\" class=\"label\">#0A141E</text>\n<rect x=\"0\" y=\"70\" width=\"100\" height=\"60\" fill=\"#FF0080\" />\n<text x=\"5\" y=\"107\" class=\"label\">#FF0080</text>\n</svg>\n";
    assert_eq!(SvgParser::to_svg(&palette), expected);
    assert_eq!(SvgParser::render(&palette), Some(expected.to_string()));
}

#[test]
fn svg_document_for_empty_palette() {
    let expected = "<svg width=\"100\" height=\"0\" xmlns=\"http://www.w3.org/2000/svg\">\n             <style>\n                .label { font-family: sans-serif; font-size: 14px; fill: #000; }\n             </style>\n</svg>\n";
    assert_eq!(SvgParser::to_svg(&[]), expected);
}
