use devenv_shell::screen::feed_shown;
use devenv_shell::Screen;

#[test]
fn fed_text_is_shown() {
    let mut vt = avt::Vt::new(20, 3);
    {
        let mut screen = Screen::new(&mut vt).unwrap();
        screen.feed("hello\r\n");
        feed_shown(Some(&mut screen), "world");
        feed_shown(None, "nobody");
    }
    let text = vt.text();
    assert_eq!(text[0], "hello");
    assert_eq!(text[1], "world");
}

#[test]
fn small_terminals_are_refused() {
    let mut one_column = avt::Vt::new(1, 3);
    assert!(Screen::new(&mut one_column).is_none());
    let mut two_columns = avt::Vt::new(2, 1);
    assert!(Screen::new(&mut two_columns).is_some());
}

#[test]
fn any_text_can_be_fed() {
    let pieces = [
        "a", "日", "\u{301}", "\r", "\n", "\t", "\u{8}", "\u{1b}[", "\u{1b}", "?", "7", "1", "0", "4", ";", "h", "l",
        "H", "A", "B", "C", "D", "J", "K", "L", "M", "P", "@", "X", "b", "r", "s", "u", "m", "S", "T", "t", "\u{1b}7",
        "\u{1b}8", "\u{1b}c", "\u{1b}M", "\u{1b}D", "\u{1b}E", "\u{1b}#8", "\u{1b}[?7l", "\u{1b}[?7h", "\u{1b}[4h",
        "\u{1b}[?6h", "\u{1b}[?1049h", "\u{1b}[?1049l", "\u{1b}[8;1;1t", "\u{9b}", "\u{1b}(0", "\u{e}", "\u{f}",
        "\u{1b}]0;x\u{7}", "\u{1b}P", "\u{9c}",
    ];
    let mut state: u64 = 0x9E3779B97F4A7C15;
    for (cols, rows) in [(2, 1), (3, 2), (4, 4), (10, 5)] {
        for _ in 0..300 {
            let mut vt = avt::Vt::new(cols, rows);
            {
                let mut screen = Screen::new(&mut vt).unwrap();
                for _ in 0..60 {
                    state = state.wrapping_mul(6364136223846793005).wrapping_add(1442695040888963407);
                    let piece = pieces[((state >> 33) % pieces.len() as u64) as usize];
                    screen.feed(piece);
                }
            }
            assert_eq!(vt.size(), (cols, rows));
        }
    }
}
