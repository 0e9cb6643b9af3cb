use wallpaper_core::compositor::backup::{backup_readable, backup_text, parse_hex_u32, read_backup, Saved, BACKED_UP};

fn entry(name: &str, v: Saved) -> (String, Saved) {
    (name.to_string(), v)
}

#[test]
fn the_backup_is_one_line_a_value() {
    let saved = vec![
        entry("AccentColor", Saved::Number(0xff2dd4bf)),
        entry("ColorizationColor", Saved::Absent),
        entry("AccentPalette", Saved::Bytes(vec![0x0a, 0xff, 0x00])),
    ];
    assert_eq!(backup_text(&saved), "AccentColor=ff2dd4bf\nColorizationColor=-\nAccentPalette=0aff00\n");
    assert_eq!(backup_text(&vec![entry("StartColorMenu", Saved::Number(7))]), "StartColorMenu=00000007\n");
}

#[test]
fn what_is_written_is_what_is_put_back() {
    let saved: Vec<(String, Saved)> = BACKED_UP
        .iter()
        .enumerate()
        .map(|(i, (_, name, binary))| {
            let v = if *binary {
                Saved::Bytes(vec![1, 2, 3, 250])
            } else if i % 2 == 0 {
                Saved::Number(0x12345678 + i as u32)
            } else {
                Saved::Absent
            };
            entry(name, v)
        })
        .collect();
    let text = backup_text(&saved);
    assert!(backup_readable(&text));
    assert_eq!(read_backup(&text), saved);
}

#[test]
fn a_line_the_backup_does_not_keep_is_passed_over() {
    let text = "Wallpaper=00000001\nnot a line\nAccentColor=zz\nAccentColorMenu=+1F\nAccentPalette=abc\n";
    assert_eq!(
        read_backup(text),
        vec![
            entry("AccentColor", Saved::Absent),
            entry("AccentColorMenu", Saved::Number(0x1f)),
            entry("AccentPalette", Saved::Absent),
        ]
    );
}

#[test]
fn numbers_read_as_hexadecimal_does() {
    let chars = |t: &str| t.chars().collect::<Vec<char>>();
    assert_eq!(parse_hex_u32(&chars("ffffffff")), Some(u32::MAX));
    assert_eq!(parse_hex_u32(&chars("100000000")), None);
    assert_eq!(parse_hex_u32(&chars("+")), None);
    assert_eq!(parse_hex_u32(&chars("")), None);
    assert_eq!(parse_hex_u32(&chars("-1")), None);
    assert_eq!(parse_hex_u32(&chars("0000000000aB")), Some(0xab));
}
