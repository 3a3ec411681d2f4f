use pcap2socks::logging::{filter_level, mark, Color, Flags, Level, Mark};

#[test]
fn flags_choose_the_level() {
    let level = |verbose, vverbose| filter_level(&Flags { verbose, vverbose });
    assert_eq!(level(false, false), Level::Info);
    assert_eq!(level(true, false), Level::Debug);
    assert_eq!(level(false, true), Level::Trace);
    assert_eq!(level(true, true), Level::Trace);
}

#[test]
fn levels_have_their_marks() {
    let expected = |is_bold, color, text| Mark {
        is_bold,
        color,
        text,
    };
    assert_eq!(mark(Level::Error), expected(true, Color::Red, "error: "));
    assert_eq!(
        mark(Level::Warn),
        expected(true, Color::Yellow, "warning: ")
    );
    assert_eq!(mark(Level::Info), expected(true, Color::Green, ""));
    let gray = expected(false, Color::Rgb(165, 165, 165), "");
    assert_eq!(mark(Level::Debug), gray);
    assert_eq!(mark(Level::Trace), gray);
}
