use qmkfmt::config::{Config, Reformatter};
use qmkfmt::engine::{extract, format_invocations};
use qmkfmt::error::Error;
use qmkfmt::grammar::Grammar;
use qmkfmt::reformat::{reformatted_text, text_to_reformat, wants_reformatter, Reformatted};
use qmkfmt::run::{find_region, first_pass, render, second_pass, survey, Action};
use qmkfmt::span::{Invocation, Match, SyntaxSpan};

const KEYMAP: &str = "#include QMK_KEYBOARD_H

enum layers { BASE, SYMB };

const uint16_t PROGMEM keymaps[][MATRIX_ROWS][MATRIX_COLS] = {
    [BASE] = LAYOUT_moonlander(
        KC_EQL,  KC_1,    KC_2,    KC_3,       KC_4,    KC_5,
        KC_DEL,  KC_Q,    KC_W,    KC_E,       KC_R,    KC_T,
        LT(SYMB,KC_GRV), KC_LSFT,
                 KC_SPC
    ),
    [SYMB] = LAYOUT_moonlander(KC_A, KC_B),
};

bool process_record_user(uint16_t keycode, keyrecord_t *record) {
    return other_call(keycode, record);
}
";

const FORMATTED: &str = "#include QMK_KEYBOARD_H

enum layers { BASE, SYMB };

const uint16_t PROGMEM keymaps[][MATRIX_ROWS][MATRIX_COLS] = {
    [BASE] = LAYOUT_moonlander(
        KC_EQL, KC_1, KC_2,            KC_3,    KC_4, KC_5,
        KC_DEL, KC_Q, KC_W,            KC_E,    KC_R, KC_T,
                      LT(SYMB,KC_GRV), KC_LSFT,
                                       KC_SPC
    ),
    [SYMB] = LAYOUT_moonlander(
        KC_A, KC_B
    ),
};

bool process_record_user(uint16_t keycode, keyrecord_t *record) {
    return other_call(keycode, record);
}
";

const DACTYL: &str = "#include QMK_KEYBOARD_H

const uint16_t PROGMEM keymaps[][MATRIX_ROWS][MATRIX_COLS] = {
  [0] = LAYOUT_6x6(
    KC_F1, KC_F2, KC_F3, KC_F4, KC_F5, KC_F6,
    KC_ESC, KC_1, KC_2, KC_9, KC_0, KC_BSPC,
    KC_LBRC, KC_RBRC, KC_PLUS, KC_EQL,
    RAISE, KC_SPC
  ),
};
";

const DACTYL_FORMATTED: &str = "#include QMK_KEYBOARD_H

const uint16_t PROGMEM keymaps[][MATRIX_ROWS][MATRIX_COLS] = {
  [0] = LAYOUT_6x6(
    KC_F1,  KC_F2,   KC_F3,       KC_F4,   KC_F5,  KC_F6,
    KC_ESC, KC_1,    KC_2,        KC_9,    KC_0,   KC_BSPC,
            KC_LBRC, KC_RBRC,     KC_PLUS, KC_EQL,
                     RAISE,       KC_SPC
  ),
};
";

/// A whole run in which the reformatter cannot be found.
fn fmt_without_reformatter(text: &str, cfg: &Config) -> String {
    let grammar = Grammar::new().unwrap();
    let run = first_pass(&grammar, text, cfg).unwrap();
    match run.next_action().unwrap() {
        Action::Reformat(part) => assert_eq!(part, text),
        Action::Proceed => panic!("the reformatter is switched on"),
    }
    second_pass(&grammar, run, Reformatted::Missing).unwrap()
}

#[test]
fn test_fmt_dactyl() {
    let mut cfg = Config::default();
    cfg.gap_width = 4;
    let actual = fmt_without_reformatter(DACTYL, &cfg);
    assert_eq!(actual, render(DACTYL, &cfg).unwrap());
    assert_eq!(actual, DACTYL_FORMATTED);
    // repeat, to ensure nothing changes with multiple formats
    assert_eq!(fmt_without_reformatter(&actual, &cfg), actual);
}

#[test]
fn test_fmt_moonlander() {
    let cfg = Config::default();
    let actual = fmt_without_reformatter(KEYMAP, &cfg);
    assert_eq!(actual, render(KEYMAP, &cfg).unwrap());
    assert_eq!(actual, FORMATTED);
    // repeat, to ensure nothing changes with multiple formats
    assert_eq!(fmt_without_reformatter(&actual, &cfg), actual);
}

#[test]
fn test_fmt_moonlander_no_clang() {
    let mut cfg = Config::default();
    cfg.reformatter = Reformatter::Disabled;
    let actual = render(KEYMAP, &cfg).unwrap();
    assert_eq!(actual, FORMATTED);
    // repeat, to ensure nothing changes with multiple formats
    assert_eq!(render(&actual, &cfg).unwrap(), actual);
}

#[test]
fn a_single_line_is_rendered_with_the_fallback_indentation() {
    let out = render("LAYOUT_x(A,B,C,D)", &Config::default()).unwrap();
    assert_eq!(out, "LAYOUT_x(\n        A, B, C, D\n    )");
}

#[test]
fn a_gap_of_two_stands_before_column_two_of_four() {
    let mut cfg = Config::default();
    cfg.gap_width = 2;
    let out = render("LAYOUT_x(A,B,C,D)", &cfg).unwrap();
    assert_eq!(out, "LAYOUT_x(\n        A, B,   C, D\n    )");
}

#[test]
fn two_rows_put_the_odd_blank_on_the_left() {
    let text = "LAYOUT_x(\n  A, B,\n  C\n)";
    let grammar = Grammar::new().unwrap();
    let found = survey(&grammar, text, &Config::default()).unwrap();
    assert_eq!(found.invocations.len(), 1);
    assert_eq!(found.region, None);
    let mut queue = extract(text, &found.invocations).unwrap();
    let grid = queue.pop().unwrap();
    let rows: Vec<Vec<String>> = grid.rows().clone();
    assert_eq!(rows, vec![vec!["A,".to_string(), "B,".to_string()], vec!["C".to_string()]]);
    let out = render(text, &Config::default()).unwrap();
    assert_eq!(out, "LAYOUT_x(\n        A, B,\n           C\n    )");
}

#[test]
fn a_second_run_changes_nothing() {
    let mut cfg = Config::default();
    cfg.gap_width = 4;
    let once = render(KEYMAP, &cfg).unwrap();
    let twice = render(&once, &cfg).unwrap();
    assert_eq!(twice, once);
    let text = "void f(void) {\n\tx = LAYOUT(\n\t\ta, b, c,\n\t\td);\n}\n";
    let once = render(text, &cfg).unwrap();
    assert_ne!(once, text);
    assert_eq!(render(&once, &cfg).unwrap(), once);
}

#[test]
fn a_document_without_layouts_comes_out_as_it_went_in() {
    let text = "int main(void) {\n    return printf(\"%d\", layout(1, 2));\n}\n";
    assert_eq!(render(text, &Config::default()).unwrap(), text);
    assert_eq!(render("", &Config::default()).unwrap(), "");
    assert_eq!(render("not C at all ((( LAYOUT", &Config::default()).unwrap(), "not C at all ((( LAYOUT");
}

#[test]
fn without_layouts_the_output_is_what_the_reformatter_wrote() {
    let cfg = Config::default();
    let text = "int  main( void ){return 0;}\n";
    let grammar = Grammar::new().unwrap();
    let run = first_pass(&grammar, text, &cfg).unwrap();
    assert_eq!(run.queue.len(), 0);
    let wrote = "int main(void) { return 0; }\n".to_string();
    assert_eq!(second_pass(&grammar, run, Reformatted::Done(wrote.clone())).unwrap(), wrote);
    let run = first_pass(&grammar, text, &cfg).unwrap();
    assert_eq!(second_pass(&grammar, run, Reformatted::Skipped).unwrap(), text);
}

#[test]
fn three_grids_survive_a_reformatter_that_moves_what_is_around_them() {
    let cfg = Config::default();
    let before = "int a = LAYOUT_a(\n  A1, A2,\n  A3, A4);\n\n\nint b   =   LAYOUT_b(B1);\nint c = LAYOUT_c(C1,\n C2);\n";
    // What a reformatter makes of it: other spacing outside, lists collapsed.
    let after = "int a = LAYOUT_a(A1, A2, A3, A4);\n\nint b = LAYOUT_b(B1);\n    int c = LAYOUT_c(C1, C2);\n";
    let grammar = Grammar::new().unwrap();
    let run = first_pass(&grammar, before, &cfg).unwrap();
    assert_eq!(run.queue.len(), 3);
    let out = second_pass(&grammar, run, Reformatted::Done(after.to_string())).unwrap();
    assert_eq!(
        out,
        "int a = LAYOUT_a(\n        A1, A2,\n        A3, A4\n    );\n\nint b = LAYOUT_b(\n        B1\n    );\n    int c = LAYOUT_c(\n        C1,\n        C2\n    );\n"
    );
}

#[test]
fn a_reformatter_that_loses_an_invocation_is_noticed() {
    let cfg = Config::default();
    let grammar = Grammar::new().unwrap();
    let one = "x = LAYOUT(A);";
    let two = "x = LAYOUT(A); y = LAYOUT(B);";
    let run = first_pass(&grammar, two, &cfg).unwrap();
    let out = second_pass(&grammar, run, Reformatted::Done(one.to_string()));
    assert_eq!(out, Err(Error::QueueLeftover));
    let run = first_pass(&grammar, one, &cfg).unwrap();
    let out = second_pass(&grammar, run, Reformatted::Done(two.to_string()));
    assert_eq!(out, Err(Error::QueueExhausted));
}

#[test]
fn a_reformatter_that_fails_ends_the_run() {
    let cfg = Config::default();
    let grammar = Grammar::new().unwrap();
    let run = first_pass(&grammar, "x = LAYOUT(A);", &cfg).unwrap();
    let out = second_pass(&grammar, run, Reformatted::Failed(Some(1)));
    assert_eq!(out, Err(Error::ReformatterFailed(Some(1))));
}

#[test]
fn the_action_between_the_passes_follows_the_configuration() {
    let text = "x = LAYOUT(A);";
    let mut cfg = Config::default();
    let grammar = Grammar::new().unwrap();
    let run = first_pass(&grammar, text, &cfg).unwrap();
    assert!(matches!(run.next_action(), Ok(Action::Reformat(part)) if part == text));
    cfg.reformatter = Reformatter::Disabled;
    let run = first_pass(&grammar, text, &cfg).unwrap();
    assert!(matches!(run.next_action(), Ok(Action::Proceed)));
    assert_eq!(
        second_pass(&grammar, run, Reformatted::Skipped).unwrap(),
        "x = LAYOUT(\n        A\n    );"
    );
}

#[test]
fn only_names_with_the_prefix_are_layouts() {
    let text = "a = MY_LAYOUT(1, 2); b = KEYS(3, 4); c = LAYOUT_x(5, 6);";
    let out = render(text, &Config::default()).unwrap();
    assert_eq!(
        out,
        "a = MY_LAYOUT(1, 2); b = KEYS(3, 4); c = LAYOUT_x(\n        5, 6\n    );"
    );
    let mut cfg = Config::default();
    cfg.name_prefix = "KEYS".to_string();
    let out = render(text, &cfg).unwrap();
    assert_eq!(
        out,
        "a = MY_LAYOUT(1, 2); b = KEYS(\n        3, 4\n    ); c = LAYOUT_x(5, 6);"
    );
    cfg.name_prefix = "LAYOUT_xy".to_string();
    assert_eq!(render(text, &cfg).unwrap(), text);
}

#[test]
fn an_invocation_without_arguments_is_fatal() {
    assert_eq!(render("x = LAYOUT();", &Config::default()), Err(Error::EmptyGrid));
}

#[test]
fn a_layout_within_a_layout_is_fatal() {
    let out = render("x = LAYOUT(LAYOUT(A), B);", &Config::default());
    assert_eq!(out, Err(Error::InvalidSpan));
}

#[test]
fn the_provider_finds_invocations_with_their_arguments() {
    let text = "x = f(a, g(b),\n  c);";
    let grammar = Grammar::new().unwrap();
    let found = grammar.invocations(text).unwrap();
    let names: Vec<&str> =
        found.iter().map(|i| &text[i.at.id.start_byte..i.at.id.end_byte]).collect();
    assert_eq!(names, vec!["f", "g"]);
    let f = &found[0];
    assert_eq!(&text[f.at.call.start_byte..f.at.call.end_byte], "f(a, g(b),\n  c)");
    assert_eq!(&text[f.at.args.start_byte..f.at.args.end_byte], "(a, g(b),\n  c)");
    let keys: Vec<&str> = f.keys.iter().map(|k| &text[k.start_byte..k.end_byte]).collect();
    assert_eq!(keys, vec!["a", "g(b)", "c"]);
    let rows: Vec<usize> = f.keys.iter().map(|k| k.start_row).collect();
    assert_eq!(rows, vec![0, 0, 1]);
    assert_eq!(f.keys[2].start_col, 2);
    assert_eq!(f.at.id.start_col, 4);
}

#[test]
fn both_passes_over_plain_values_need_no_provider() {
    let text = "  k = LAYOUT(A,\nB);";
    let span = |start: usize, end: usize, row: usize, col: usize| SyntaxSpan {
        start_byte: start,
        end_byte: end,
        start_row: row,
        start_col: col,
    };
    let invocation = Invocation {
        at: Match { id: span(6, 12, 0, 6), args: span(12, 18, 0, 12), call: span(6, 18, 0, 6) },
        keys: vec![span(13, 14, 0, 13), span(16, 17, 1, 0)],
    };
    let out = format_invocations(text, &vec![invocation], &Config::default()).unwrap();
    assert_eq!(out, "  k = LAYOUT(\n    A,\n    B\n  );");
    let empty = Invocation {
        at: Match { id: span(6, 12, 0, 6), args: span(12, 18, 0, 12), call: span(6, 18, 0, 6) },
        keys: vec![],
    };
    assert_eq!(
        format_invocations(text, &vec![empty], &Config::default()),
        Err(Error::EmptyGrid)
    );
    assert_eq!(format_invocations(text, &vec![], &Config::default()).unwrap(), text);
}

#[test]
fn the_first_grid_that_cannot_be_built_ends_extraction() {
    let text = "LAYOUT(A) LAYOUT() LAYOUT(é)";
    let span = |start: usize, end: usize| SyntaxSpan {
        start_byte: start,
        end_byte: end,
        start_row: 0,
        start_col: start,
    };
    let good = || Invocation {
        at: Match { id: span(0, 6), args: span(6, 9), call: span(0, 9) },
        keys: vec![span(7, 8)],
    };
    let empty = || Invocation {
        at: Match { id: span(10, 16), args: span(16, 18), call: span(10, 18) },
        keys: vec![],
    };
    let split = || Invocation {
        at: Match { id: span(19, 25), args: span(25, 29), call: span(19, 29) },
        keys: vec![span(26, 27)],
    };
    assert_eq!(extract(text, &vec![good(), empty(), split()]).err(), Some(Error::EmptyGrid));
    assert_eq!(extract(text, &vec![good(), split(), empty()]).err(), Some(Error::Encoding));
    let queue = extract(text, &vec![good(), good()]).unwrap();
    assert_eq!(queue.len(), 2);
}

#[test]
fn the_outcome_of_the_reformatter_decides_the_second_document() {
    let text = "int x;";
    assert_eq!(reformatted_text(text, &None, Reformatted::Skipped), Ok(text.to_string()));
    assert_eq!(reformatted_text(text, &None, Reformatted::Missing), Ok(text.to_string()));
    assert_eq!(
        reformatted_text(text, &None, Reformatted::Done("int x;\n".to_string())),
        Ok("int x;\n".to_string())
    );
    assert_eq!(
        reformatted_text(text, &None, Reformatted::Failed(Some(2))),
        Err(Error::ReformatterFailed(Some(2)))
    );
    assert_eq!(
        reformatted_text(text, &None, Reformatted::Failed(None)),
        Err(Error::ReformatterFailed(None))
    );
}

#[test]
fn a_region_is_reformatted_in_place() {
    let text = "a;\nint  x;\nb;";
    let region = Some(SyntaxSpan { start_byte: 3, end_byte: 10, start_row: 1, start_col: 0 });
    assert_eq!(text_to_reformat(text, &region), Ok("int  x;"));
    assert_eq!(text_to_reformat(text, &None), Ok(text));
    assert_eq!(
        reformatted_text(text, &region, Reformatted::Done("int x;".to_string())),
        Ok("a;\nint x;\nb;".to_string())
    );
    assert_eq!(reformatted_text(text, &region, Reformatted::Missing), Ok(text.to_string()));
    let beyond = Some(SyntaxSpan { start_byte: 3, end_byte: 100, start_row: 1, start_col: 0 });
    assert_eq!(text_to_reformat(text, &beyond), Err(Error::InvalidSpan));
    assert_eq!(
        reformatted_text(text, &beyond, Reformatted::Done("x".to_string())),
        Err(Error::InvalidSpan)
    );
}

#[test]
fn the_configuration_says_whether_the_reformatter_runs() {
    let mut cfg = Config::default();
    assert!(wants_reformatter(&cfg));
    cfg.reformatter = Reformatter::Disabled;
    assert!(!wants_reformatter(&cfg));
}

#[test]
fn the_default_configuration_is_the_usual_one() {
    let cfg = Config::default();
    assert_eq!(cfg.name_prefix, "LAYOUT");
    assert_eq!(cfg.indent_fallback, "    ");
    assert_eq!(cfg.gap_width, 0);
    assert_eq!(cfg.reformatter, Reformatter::Enabled);
    assert_eq!(cfg.anchor_name, None);
}

#[test]
fn without_an_anchor_there_is_no_region() {
    let grammar = Grammar::new().unwrap();
    assert_eq!(find_region(&grammar, KEYMAP, &Config::default()), Ok(None));
}
