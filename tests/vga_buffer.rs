use rust_os::vga_buffer::{
    Colour, ColourCode, ScreenChar, Writer, BUFFER_HEIGHT, BUFFER_WIDTH, PLACEHOLDER,
};

fn writer() -> Writer {
    Writer::new(ColourCode::new(Colour::White, Colour::Black))
}

fn println(w: &mut Writer, s: &str) {
    w.write_string(s);
    w.write_string("\n");
}

fn row_text(w: &Writer, row: usize, len: usize) -> String {
    let mut out = String::new();
    for col in 0..len {
        out.push(char::from(w.read_char(row, col).ascii_char));
    }
    out
}

#[test]
fn println_not_panic() {
    let mut w = writer();
    println(&mut w, "Simple output");
}

#[test]
fn println_not_panic_many() {
    let mut w = writer();
    for _ in 0..200 {
        println(&mut w, "Simple output");
    }
}

#[test]
fn println_writes_to_buffer() {
    let mut w = writer();
    let s = "A single line to print.";
    println(&mut w, s);
    for (i, c) in s.chars().enumerate() {
        let buffer_char = w.read_char(BUFFER_HEIGHT - 2, i);
        assert_eq!(char::from(buffer_char.ascii_char), c);
    }
}

#[test]
fn print_can_wrap() {
    let mut w = writer();
    let full_line =
        "xxxxxxxxxxxxxxxxxxxxxxxxxxxxxxxxxxxxxxxxxxxxxxxxxxxxxxxxxxxxxxxxxxxxxxxxxxxxxxxx";
    assert_eq!(full_line.len(), BUFFER_WIDTH);
    w.write_string("\n");
    w.write_string(full_line);
    for i in 0..BUFFER_WIDTH {
        let buffer_char = w.read_char(BUFFER_HEIGHT - 1, i);
        assert_eq!(char::from(buffer_char.ascii_char), 'x');
    }

    let s = "This should wrap onto a new line!";
    w.write_string(s);
    for i in 0..BUFFER_WIDTH {
        let buffer_char = w.read_char(BUFFER_HEIGHT - 2, i);
        assert_eq!(char::from(buffer_char.ascii_char), 'x');
    }
    for (i, c) in s.chars().enumerate() {
        let buffer_char = w.read_char(BUFFER_HEIGHT - 1, i);
        assert_eq!(char::from(buffer_char.ascii_char), c);
    }
}

#[test]
fn can_clear_row() {
    let mut w = writer();
    w.write_string("\n");
    let s = "A single line to print.";
    w.write_string(s);
    for (i, c) in s.chars().enumerate() {
        let buffer_char = w.read_char(BUFFER_HEIGHT - 1, i);
        assert_eq!(char::from(buffer_char.ascii_char), c);
    }

    w.clear_row(BUFFER_HEIGHT - 1);

    for i in 0..BUFFER_WIDTH {
        let buffer_char = w.read_char(BUFFER_HEIGHT - 1, i);
        assert_eq!(char::from(buffer_char.ascii_char), ' ');
    }
}

#[test]
fn print_with_newlines() {
    let mut w = writer();
    w.write_string("\n");
    let s = "Line 1\nLine 2";
    w.write_string(s);
    for (i, c) in "Line 1".chars().enumerate() {
        let buffer_char = w.read_char(BUFFER_HEIGHT - 2, i);
        assert_eq!(char::from(buffer_char.ascii_char), c);
    }
    for (i, c) in "Line 2".chars().enumerate() {
        let buffer_char = w.read_char(BUFFER_HEIGHT - 1, i);
        assert_eq!(char::from(buffer_char.ascii_char), c);
    }
}

#[test]
fn hello_world_then_second_line() {
    let mut w = writer();
    w.write_string("Hello, World!");
    assert_eq!(row_text(&w, BUFFER_HEIGHT - 1, 13), "Hello, World!");
    assert_eq!(w.cursor_column(), 13);
    w.write_string("\nAnother line!");
    assert_eq!(row_text(&w, BUFFER_HEIGHT - 1, 13), "Another line!");
    assert_eq!(row_text(&w, BUFFER_HEIGHT - 2, 13), "Hello, World!");
}

#[test]
fn first_line_scrolls_off_at_capacity() {
    let mut w = writer();
    w.write_string("Hello, World!");
    for _ in 0..BUFFER_HEIGHT - 1 {
        w.write_string("\n");
    }
    assert_eq!(row_text(&w, 0, 13), "Hello, World!");
    w.write_string("\n");
    assert_eq!(row_text(&w, 0, 13), "             ");
}

#[test]
fn new_writer_is_blank() {
    let w = writer();
    let attr = ColourCode::new(Colour::White, Colour::Black);
    assert_eq!(w.cursor_column(), 0);
    assert_eq!(w.colour_code(), attr);
    for row in 0..BUFFER_HEIGHT {
        for col in 0..BUFFER_WIDTH {
            assert_eq!(w.read_char(row, col), ScreenChar { ascii_char: b' ', colour_code: attr });
        }
    }
}

#[test]
fn cells_carry_the_attribute() {
    let attr = ColourCode::new(Colour::Yellow, Colour::Blue);
    let mut w = Writer::new(attr);
    w.write_string("A");
    assert_eq!(w.read_char(BUFFER_HEIGHT - 1, 0), ScreenChar { ascii_char: b'A', colour_code: attr });
    assert_eq!(w.read_char(BUFFER_HEIGHT - 1, 1), ScreenChar { ascii_char: b' ', colour_code: attr });
}

#[test]
fn non_printable_bytes_show_placeholder() {
    let mut w = writer();
    w.write_string("a\tb\u{e9}c");
    let row = BUFFER_HEIGHT - 1;
    assert_eq!(w.read_char(row, 0).ascii_char, b'a');
    assert_eq!(w.read_char(row, 1).ascii_char, PLACEHOLDER);
    assert_eq!(w.read_char(row, 2).ascii_char, b'b');
    // the two bytes of the accented letter each become a placeholder
    assert_eq!(w.read_char(row, 3).ascii_char, 0xfe);
    assert_eq!(w.read_char(row, 4).ascii_char, 0xfe);
    assert_eq!(w.read_char(row, 5).ascii_char, b'c');
    assert_eq!(w.cursor_column(), 6);
}

#[test]
fn printable_edges_are_drawn_as_is() {
    let mut w = writer();
    w.write_string(" ~");
    assert_eq!(w.read_char(BUFFER_HEIGHT - 1, 0).ascii_char, 0x20);
    assert_eq!(w.read_char(BUFFER_HEIGHT - 1, 1).ascii_char, 0x7e);
    w.write_string("\u{7f}");
    assert_eq!(w.read_char(BUFFER_HEIGHT - 1, 2).ascii_char, PLACEHOLDER);
}

#[test]
fn full_line_leaves_cursor_at_width() {
    let mut w = writer();
    let line = "y".repeat(BUFFER_WIDTH);
    w.write_string(&line);
    assert_eq!(w.cursor_column(), BUFFER_WIDTH);
    assert_eq!(w.read_char(BUFFER_HEIGHT - 2, 0).ascii_char, b' ');
    w.write_byte(b'z');
    assert_eq!(w.cursor_column(), 1);
    assert_eq!(w.read_char(BUFFER_HEIGHT - 2, BUFFER_WIDTH - 1).ascii_char, b'y');
    assert_eq!(w.read_char(BUFFER_HEIGHT - 1, 0).ascii_char, b'z');
}

#[test]
fn many_line_breaks_blank_the_grid() {
    let mut w = writer();
    for row in 0..BUFFER_HEIGHT {
        w.write_string("some text");
        if row + 1 < BUFFER_HEIGHT {
            w.write_string("\n");
        }
    }
    for _ in 0..BUFFER_HEIGHT + 3 {
        w.write_byte(b'\n');
    }
    let attr = ColourCode::new(Colour::White, Colour::Black);
    assert_eq!(w.cursor_column(), 0);
    for row in 0..BUFFER_HEIGHT {
        for col in 0..BUFFER_WIDTH {
            assert_eq!(w.read_char(row, col), ScreenChar { ascii_char: b' ', colour_code: attr });
        }
    }
}

#[test]
fn new_line_moves_rows_up() {
    let mut w = writer();
    w.write_string("top");
    w.new_line();
    w.write_string("next");
    w.new_line();
    assert_eq!(row_text(&w, BUFFER_HEIGHT - 3, 3), "top");
    assert_eq!(row_text(&w, BUFFER_HEIGHT - 2, 4), "next");
    assert_eq!(row_text(&w, BUFFER_HEIGHT - 1, 4), "    ");
    assert_eq!(w.cursor_column(), 0);
}

#[test]
fn clear_row_keeps_other_rows() {
    let mut w = writer();
    w.write_string("above\nbelow");
    w.clear_row(BUFFER_HEIGHT - 1);
    assert_eq!(row_text(&w, BUFFER_HEIGHT - 2, 5), "above");
    assert_eq!(row_text(&w, BUFFER_HEIGHT - 1, 5), "     ");
    assert_eq!(w.cursor_column(), 5);
}

#[test]
fn colour_code_packs_background_high() {
    assert_eq!(ColourCode::new(Colour::White, Colour::Black).0, 0x0f);
    assert_eq!(ColourCode::new(Colour::Yellow, Colour::Blue).0, 0x1e);
    assert_eq!(ColourCode::new(Colour::Black, Colour::White).0, 0xf0);
    assert_eq!(ColourCode::new(Colour::LightRed, Colour::Green).0, 0x2c);
    assert_eq!(Colour::Pink.index(), 13);
}
