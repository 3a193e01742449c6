use terminalia::logbook::{append, append_many, clear, decimal, LogFragment, Logbook, Logger, Tint};

#[test]
fn decimal_writes_numbers() {
    assert_eq!(decimal(0), "0");
    assert_eq!(decimal(7), "7");
    assert_eq!(decimal(10), "10");
    assert_eq!(decimal(1234567890), "1234567890");
    assert_eq!(decimal(-1), "-1");
    assert_eq!(decimal(-907), "-907");
    assert_eq!(decimal(i32::MAX), "2147483647");
    assert_eq!(decimal(i32::MIN), "-2147483648");
    for n in [-100001, -99, 5, 19, 100, 101, 65535] {
        assert_eq!(decimal(n), n.to_string());
    }
}

#[test]
fn logger_builds_a_line_in_colours() {
    let mut book = Logbook::new();
    Logger::new().append("rat ").with_color(Tint::Red).append("bites").append_with_color(Tint::Yellow, "!").log(
        &mut book,
    );
    assert_eq!(book.size(), 1);
    let line = &book.entries[0];
    assert_eq!(line.len(), 3);
    assert_eq!(line[0].text, "rat ");
    assert_eq!(line[0].color, Tint::White);
    assert_eq!(line[1].text, "bites");
    assert_eq!(line[1].color, Tint::Red);
    assert_eq!(line[2].text, "!");
    assert_eq!(line[2].color, Tint::Yellow);
}

#[test]
fn append_and_clear() {
    let mut book = Logbook::new();
    append(&mut book, LogFragment { color: Tint::Gray, text: "one".to_string() });
    append_many(
        &mut book,
        vec![
            LogFragment { color: Tint::Gray, text: "two".to_string() },
            LogFragment { color: Tint::Blue, text: "three".to_string() },
        ],
    );
    assert_eq!(book.size(), 2);
    assert_eq!(book.entries[0].len(), 1);
    assert_eq!(book.entries[1].len(), 2);
    assert_eq!(book.entries[1][1].text, "three");
    clear(&mut book);
    assert_eq!(book.size(), 0);
    clear(&mut book);
    assert_eq!(book.size(), 0);
}

#[test]
fn empty_logger_logs_an_empty_line() {
    let mut book = Logbook::new();
    Logger::new().log(&mut book);
    assert_eq!(book.size(), 1);
    assert!(book.entries[0].is_empty());
}
