use toku::theme::{hex_colour, Theme};

#[test]
fn colours_written_in_hex() {
    assert_eq!(hex_colour("#282828"), Some((0x28, 0x28, 0x28)));
    assert_eq!(hex_colour("#FB4934"), Some((0xfb, 0x49, 0x34)));
    assert_eq!(hex_colour("#+a0b0c"), Some((0x0a, 0x0b, 0x0c)));
    assert_eq!(hex_colour("#ebdbb2ff"), Some((0xeb, 0xdb, 0xb2)));
    assert_eq!(hex_colour("#zz0000"), None);
    assert_eq!(hex_colour("#28282"), None);
    assert_eq!(hex_colour(""), None);
    assert_eq!(hex_colour("é282828"), None);
}

#[test]
fn the_default_theme() {
    let theme = Theme::default();
    assert_eq!(theme.palette.len(), 32);
    assert_eq!(theme.scheme.len(), 27);
    for (name, colour) in theme.palette.iter() {
        assert_eq!(theme.palette(name), Some(*colour));
    }
    assert_eq!(theme.palette("bg0"), hex_colour("#282828"));
    assert_eq!(theme.palette("grey2"), hex_colour("#a89984"));
    assert_eq!(theme.palette("nothing"), None);
    assert_eq!(theme.scheme("keyword"), hex_colour("#fb4934"));
    assert_eq!(theme.scheme("comment"), theme.palette("grey0"));
    assert_eq!(theme.scheme("function.macro"), theme.palette("aqua"));
    assert_eq!(theme.scheme("nothing"), None);
}
