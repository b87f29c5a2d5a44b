use harmoxen::message::{rootmsg, Message, RootMessage, View};
use harmoxen::time_input::{make_time_pattern, LayoutParseError, TimeInput};

#[test]
fn default_time_input() {
    match TimeInput::default() {
        TimeInput::Regular { ndiv, nrepeat } => {
            assert_eq!(ndiv, 4);
            assert_eq!(nrepeat, 4);
        }
        _ => panic!("default is not regular"),
    }
}

#[test]
fn unset_time_input_has_no_pattern() {
    assert!(matches!(make_time_pattern(&TimeInput::Unset), Ok(None)));
}

#[test]
fn regular_time_pattern() {
    let p = make_time_pattern(&TimeInput::Regular { ndiv: 4, nrepeat: 3 }).unwrap().unwrap();
    assert_eq!(p.positions, vec![0, 1, 2, 3]);
    assert_eq!(p.den, 4);
    assert_eq!(p.nrepeat, 3);
}

#[test]
fn poly_time_pattern_merges_divisions() {
    let p = make_time_pattern(&TimeInput::Poly { ndiv0: 2, ndiv1: 3, nrepeat: 1 }).unwrap().unwrap();
    // 0, 1/2 and 1/3, 2/3 over sixths
    assert_eq!(p.den, 6);
    assert_eq!(p.positions, vec![0, 2, 3, 4]);
    let q = make_time_pattern(&TimeInput::Poly { ndiv0: 2, ndiv1: 4, nrepeat: 2 }).unwrap().unwrap();
    // 1/2 appears in both divisions and is kept twice
    assert_eq!(q.positions, vec![0, 2, 4, 4, 6]);
    assert_eq!(q.nrepeat, 2);
}

#[test]
fn poly_time_pattern_rejects_zero() {
    assert_eq!(
        make_time_pattern(&TimeInput::Poly { ndiv0: 0, ndiv1: 3, nrepeat: 1 }).err(),
        Some(LayoutParseError)
    );
    assert_eq!(
        make_time_pattern(&TimeInput::Poly { ndiv0: 3, ndiv1: 0, nrepeat: 1 }).err(),
        Some(LayoutParseError)
    );
}

#[test]
fn sheet_editor_messages_are_tagged() {
    let m = Message::XViewChanged(View { start: 0, end: 10 });
    assert_eq!(rootmsg(m), RootMessage::SheetEditor(m));
    assert_eq!(rootmsg(Message::SetScrolling), RootMessage::SheetEditor(Message::SetScrolling));
}

#[test]
fn time_input_labels() {
    assert_eq!(TimeInput::Unset.label(), "None");
    assert_eq!(TimeInput::default().label(), "Regular");
    assert_eq!(TimeInput::Poly { ndiv0: 1, ndiv1: 1, nrepeat: 1 }.label(), "Poly");
    let f = TimeInput::Formula { ndiv: 2, nrepeat: 1, formula: String::from("i / 2") };
    assert_eq!(f.label(), "Formula");
}
