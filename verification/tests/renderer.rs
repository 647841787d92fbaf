use bc250_dashboard::{flat_of, path_commands, svg_path_data, Context, Lexer, PaintSpec, PathCmd, Rgba};

#[test]
fn expands_known_and_unknown() {
    let mut c = Context::new();
    c.set("name", "DOOM");
    assert_eq!(c.expand("<< {{ name }} >>"), "<< DOOM >>");
    assert_eq!(c.expand("a {{ missing }} b"), "a  b");
    assert_eq!(c.expand("no placeholders"), "no placeholders");
}

#[test]
fn parses_hex_colours() {
    assert_eq!(Rgba::parse("#fff"), Some(Rgba(255, 255, 255, 255)));
    assert_eq!(Rgba::parse("#00ff9c"), Some(Rgba(0, 255, 156, 255)));
    assert_eq!(Rgba::parse("#00000080"), Some(Rgba(0, 0, 0, 128)));
    assert_eq!(Rgba::parse("nope"), None);
}

#[test]
fn a_read_gives_back_the_last_write() {
    let mut c = Context::new();
    c.set("gpu.temp", "61");
    c.set("cpu.temp", "44");
    c.set("gpu.temp", "62");
    assert_eq!(c.get("gpu.temp"), Some("62"));
    assert_eq!(c.get("cpu.temp"), Some("44"));
    assert_eq!(c.get("fan.rpm"), None);
}

#[test]
fn unclosed_placeholder_is_kept() {
    let mut c = Context::new();
    c.set("a", "1");
    assert_eq!(c.expand("x {{a}} {{ a"), "x 1 {{ a");
    assert_eq!(c.expand("{{a}}{{a}}"), "11");
}

#[test]
fn colour_edge_cases() {
    assert_eq!(Rgba::parse("#ABCDEF"), Some(Rgba(0xab, 0xcd, 0xef, 255)));
    assert_eq!(Rgba::parse("#12345"), None);
    assert_eq!(Rgba::parse("fff"), None);
    assert_eq!(Rgba::parse("#ggg"), None);
    assert_eq!(Rgba::white(), Rgba(255, 255, 255, 255));
    assert_eq!(Rgba::black(), Rgba(0, 0, 0, 255));
}

#[test]
fn paint_specs_parse() {
    assert_eq!(PaintSpec::parse("gradient: gold "), Some(PaintSpec::Grad("gold".to_string())));
    assert_eq!(PaintSpec::parse("#eece86"), Some(PaintSpec::Flat(Rgba(0xee, 0xce, 0x86, 255))));
    assert_eq!(PaintSpec::parse("none"), None);
    assert_eq!(flat_of(&PaintSpec::Grad("gold".to_string())), Rgba(255, 255, 255, 255));
    assert_eq!(flat_of(&PaintSpec::Flat(Rgba(1, 2, 3, 4))), Rgba(1, 2, 3, 4));
}

#[test]
fn path_lexer_reads_commands_and_number_spans() {
    let d = "M10,-2.5e3 l5 0 z";
    let mut lx = Lexer::new(d);
    assert!(!lx.eof());
    assert_eq!(lx.peek_cmd(), Some(b'M'));
    assert_eq!(lx.take_cmd(), Some(b'M'));
    assert_eq!(lx.peek_cmd(), None);
    assert_eq!(lx.number_span(), Some((1, 3)));
    assert_eq!(lx.number_span(), Some((4, 10)));
    assert_eq!(&d[4..10], "-2.5e3");
    assert_eq!(lx.take_cmd(), Some(b'l'));
    assert_eq!(lx.number_span(), Some((12, 13)));
    assert_eq!(lx.number_span(), Some((14, 15)));
    assert_eq!(lx.number_span(), None);
    assert_eq!(lx.take_cmd(), Some(b'z'));
    assert!(lx.eof());
    assert_eq!(lx.position(), d.len());
}

#[test]
fn number_without_digits_is_not_consumed() {
    let mut lx = Lexer::new("  -.e");
    assert_eq!(lx.number_span(), None);
    assert_eq!(lx.position(), 2);
    let mut lx = Lexer::new("1.2.3");
    assert_eq!(lx.number_span(), Some((0, 3)));
}

#[test]
fn svg_path_data_takes_the_first_d_attribute_squeezed() {
    let svg = "<svg><path fill=\"x\" d=\"M 0 0\n   L 10\t10 Z \"/><path d=\"M 1 1\"/></svg>";
    assert_eq!(svg_path_data(svg), Some("M 0 0 L 10 10 Z".to_string()));
}

#[test]
fn svg_path_data_falls_back_to_a_tab_led_attribute() {
    assert_eq!(svg_path_data("<path\td=\"M1,2\"/>"), Some("M1,2".to_string()));
    assert_eq!(svg_path_data("<path\td=\"  \"/>"), Some(String::new()));
}

#[test]
fn svg_path_data_needs_an_open_and_closed_attribute() {
    assert_eq!(svg_path_data("<path id=\"d\"/>"), None);
    assert_eq!(svg_path_data("<path d=\"M 0 0"), None);
    assert_eq!(svg_path_data(""), None);
}

#[test]
fn colours_take_hex_digits_only() {
    assert_eq!(Rgba::parse("#+f0000"), None);
    assert_eq!(Rgba::parse("#ff00+f"), None);
    assert_eq!(Rgba::parse("#-10000"), None);
    assert_eq!(Rgba::parse("#0a0B0cFF"), Some(Rgba(10, 11, 12, 255)));
    assert_eq!(Rgba::parse("#abc"), Rgba::parse("#aabbcc"));
}

#[test]
fn rejects_unsupported_command() {
    assert!(path_commands("M0 0 A 1 1 0 0 1 10 10").is_none());
}

#[test]
fn relative_and_implicit_lineto() {
    let d = "M10 10 20 20 l5 0 z";
    let cmds = path_commands(d).expect("parses");
    let kinds: Vec<PathCmd> = cmds.iter().map(|c| c.0).collect();
    assert_eq!(
        kinds,
        vec![
            PathCmd::Move { rel: false },
            PathCmd::Line { rel: false },
            PathCmd::Line { rel: true },
            PathCmd::Close
        ]
    );
    let texts: Vec<Vec<&str>> = cmds
        .iter()
        .map(|c| c.1.iter().map(|&(s, e)| &d[s..e]).collect())
        .collect();
    assert_eq!(
        texts,
        vec![vec!["10", "10"], vec!["20", "20"], vec!["5", "0"], vec![]]
    );
}

#[test]
fn path_commands_take_each_command_s_numbers() {
    let d = "M1,2h3v-4C1 2 3 4 5 6c.5-1e2 7 8 9 10";
    let cmds = path_commands(d).expect("parses");
    let counts: Vec<(PathCmd, usize)> = cmds.iter().map(|c| (c.0, c.1.len())).collect();
    assert_eq!(
        counts,
        vec![
            (PathCmd::Move { rel: false }, 2),
            (PathCmd::HLine { rel: true }, 1),
            (PathCmd::VLine { rel: true }, 1),
            (PathCmd::Cubic { rel: false }, 6),
            (PathCmd::Cubic { rel: true }, 6)
        ]
    );
    assert_eq!(&d[cmds[4].1[0].0..cmds[4].1[0].1], ".5");
    assert_eq!(&d[cmds[4].1[1].0..cmds[4].1[1].1], "-1e2");
}

#[test]
fn path_commands_refuse_malformed_paths() {
    assert_eq!(path_commands(""), None);
    assert_eq!(path_commands("L 1 1"), None);
    assert_eq!(path_commands("10 10"), None);
    assert_eq!(path_commands("M 0"), None);
    assert_eq!(path_commands("M 0 L 1 1"), None);
    assert_eq!(path_commands("M0 0 Z 5"), None);
    assert_eq!(path_commands("M0 0 C 1 2 3 4 5"), None);
    assert!(path_commands("M0 0 Z M 1 1").is_some());
}
