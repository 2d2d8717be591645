use duzzy_editor::chars::{char_width, chars_of, reversed, str_eq, string_of_char};
use duzzy_editor::transaction::{Action, Transaction, TransactionResult};
use ropey::Rope;

fn insert_of(tx: &Transaction, i: usize) -> (String, usize) {
    match tx.get(i) {
        Some(Action::Insert(change)) => (change.content.clone(), change.pos),
        other => panic!("no insertion at {}: {:?}", i, other),
    }
}

fn delete_of(tx: &Transaction, i: usize) -> (String, usize) {
    match tx.get(i) {
        Some(Action::Delete(change)) => (change.content.clone(), change.pos),
        other => panic!("no deletion at {}: {:?}", i, other),
    }
}

fn move_of(tx: &Transaction, i: usize) -> usize {
    match tx.get(i) {
        Some(Action::Move(pos)) => *pos,
        other => panic!("no move at {}: {:?}", i, other),
    }
}

#[test]
fn test_transaction() {
    let mut text = ropey::Rope::new();

    {
        let mut tx = Transaction::new();
        tx.insert_char(0, 't');
        tx.insert_char(1, 'e');
        tx.insert_char(2, 's');
        tx.insert_char(3, 't');
        tx.apply(&mut text);

        assert_eq!(&text.to_string(), "test");
    }

    {
        let mut tx = Transaction::new();

        tx.delete_char(3, 't');
        tx.delete_char(2, 's');
        tx.shift(1);
        tx.shift(0);
        tx.insert_char(0, ' ');
        tx.shift(0);
        tx.insert_char(0, 't');
        tx.insert_char(1, 'e');
        tx.apply(&mut text);

        assert_eq!(&text.to_string(), "te te");
    }
}

#[test]
fn new_transaction_is_empty() {
    let tx = Transaction::new();
    assert_eq!(tx.len(), 0);
    assert!(tx.get(0).is_none());
    assert_eq!(Transaction::default().len(), 0);
}

#[test]
fn inserts_coalesce_into_one_action() {
    let mut tx = Transaction::new();
    tx.insert_char(0, 'a');
    tx.insert_char(1, 'b');
    tx.insert_char(2, 'c');
    assert_eq!(tx.len(), 1);
    assert_eq!(insert_of(&tx, 0), ("abc".to_string(), 0));
}

#[test]
fn insert_str_extends_last_insert() {
    let mut tx = Transaction::new();
    tx.insert_str(4, "ab");
    tx.insert_str(6, "cd");
    tx.insert_char(8, 'e');
    assert_eq!(tx.len(), 1);
    assert_eq!(insert_of(&tx, 0), ("abcde".to_string(), 4));
}

#[test]
fn deletes_coalesce_into_one_action() {
    let mut text = Rope::from_str("test");
    let mut tx = Transaction::new();
    tx.delete_char(3, 't');
    tx.delete_char(2, 's');
    assert_eq!(tx.len(), 1);
    assert_eq!(delete_of(&tx, 0), ("ts".to_string(), 2));

    let undo = tx.inverse();
    assert_eq!(undo.len(), 1);
    assert_eq!(insert_of(&undo, 0), ("st".to_string(), 2));

    assert_eq!(tx.apply(&mut text), Some(2));
    assert_eq!(text.to_string(), "te");
}

#[test]
fn distinct_kinds_are_not_merged() {
    let mut tx = Transaction::new();
    tx.insert_char(0, 'a');
    tx.delete_char(0, 'a');
    tx.insert_char(0, 'b');
    tx.shift(1);
    tx.insert_char(1, 'c');
    assert_eq!(tx.len(), 5);
    assert_eq!(insert_of(&tx, 0), ("a".to_string(), 0));
    assert_eq!(delete_of(&tx, 1), ("a".to_string(), 0));
    assert_eq!(insert_of(&tx, 2), ("b".to_string(), 0));
    assert_eq!(move_of(&tx, 3), 1);
    assert_eq!(insert_of(&tx, 4), ("c".to_string(), 1));
}

#[test]
fn shift_overwrites_last_move() {
    let mut tx = Transaction::new();
    tx.shift(1);
    tx.shift(7);
    tx.shift(3);
    assert_eq!(tx.len(), 1);
    assert_eq!(move_of(&tx, 0), 3);
    tx.insert_char(3, 'x');
    tx.shift(4);
    assert_eq!(tx.len(), 3);
    assert_eq!(move_of(&tx, 2), 4);
}

#[test]
fn delete_str_stores_reversed_text_before_pos() {
    let mut tx = Transaction::new();
    tx.delete_str(5, "hello");
    assert_eq!(delete_of(&tx, 0), ("olleh".to_string(), 0));

    let mut short = Transaction::new();
    short.delete_str(2, "hello");
    assert_eq!(delete_of(&short, 0), ("olleh".to_string(), 0));

    let mut later = Transaction::new();
    later.delete_str(9, "abc");
    later.delete_str(6, "xy");
    assert_eq!(later.len(), 1);
    assert_eq!(delete_of(&later, 0), ("cbayx".to_string(), 4));
}

#[test]
fn apply_reports_cursor_of_last_action() {
    let mut text = Rope::from_str("hello");
    assert_eq!(Transaction::new().apply(&mut text), None);
    assert_eq!(text.to_string(), "hello");

    let mut ins = Transaction::new();
    ins.insert_str(5, " world");
    assert_eq!(ins.apply(&mut text), Some(11));
    assert_eq!(text.to_string(), "hello world");

    let mut del = Transaction::new();
    del.delete_str(11, " world");
    assert_eq!(del.apply(&mut text), Some(5));
    assert_eq!(text.to_string(), "hello");

    let mut mv = Transaction::new();
    mv.insert_char(0, '>');
    mv.shift(42);
    assert_eq!(mv.apply(&mut text), Some(42));
    assert_eq!(text.to_string(), ">hello");
}

#[test]
fn apply_counts_characters_not_bytes() {
    let mut text = Rope::from_str("añb");
    let mut tx = Transaction::new();
    tx.insert_str(2, "éé");
    assert_eq!(tx.apply(&mut text), Some(4));
    assert_eq!(text.to_string(), "añééb");

    let mut del = Transaction::new();
    del.delete_str(4, "ñéé");
    assert_eq!(del.apply(&mut text), Some(1));
    assert_eq!(text.to_string(), "ab");
}

#[test]
fn apply_leaves_text_alone_when_an_action_does_not_fit() {
    let mut text = Rope::from_str("ab");
    let mut tx = Transaction::new();
    tx.insert_char(0, 'x');
    tx.shift(0);
    tx.insert_char(9, 'y');
    assert_eq!(tx.apply(&mut text), None);
    assert_eq!(text.to_string(), "ab");

    let mut del = Transaction::new();
    del.delete_char(2, 'c');
    assert_eq!(del.apply(&mut text), None);
    assert_eq!(text.to_string(), "ab");

    let mut fits = Transaction::new();
    fits.insert_char(2, 'c');
    assert_eq!(fits.apply(&mut text), Some(3));
    assert_eq!(text.to_string(), "abc");
}

#[test]
fn inverse_reverses_order_and_inverts_each_action() {
    let mut tx = Transaction::new();
    tx.insert_str(0, "ab");
    tx.shift(5);
    tx.delete_str(5, "xyz");
    let undo = tx.inverse();
    assert_eq!(undo.len(), 3);
    assert_eq!(insert_of(&undo, 0), ("xyz".to_string(), 2));
    assert_eq!(move_of(&undo, 1), 5);
    assert_eq!(delete_of(&undo, 2), ("ab".to_string(), 0));
    assert_eq!(tx.len(), 3);
}

#[test]
fn inverse_restores_the_text() {
    let before = "the quick brown fox";
    let mut text = Rope::from_str(before);
    let mut tx = Transaction::new();
    tx.delete_str(9, "quick");
    tx.insert_str(4, "slow");
    tx.shift(0);
    tx.insert_char(0, '>');
    tx.delete_char(18, 'x');
    tx.delete_char(17, 'o');
    assert_eq!(tx.apply(&mut text), Some(17));
    assert_eq!(text.to_string(), ">the slow brown f");

    let undo = tx.inverse();
    assert!(undo.apply(&mut text).is_some());
    assert_eq!(text.to_string(), before);
}

#[test]
fn end_to_end_undo() {
    let mut text = Rope::new();
    let mut first = Transaction::new();
    first.insert_char(0, 't');
    first.insert_char(1, 'e');
    first.insert_char(2, 's');
    first.insert_char(3, 't');
    assert_eq!(first.apply(&mut text), Some(4));

    let mut second = Transaction::new();
    second.delete_char(3, 't');
    second.delete_char(2, 's');
    second.shift(1);
    second.shift(0);
    second.insert_char(0, ' ');
    second.shift(0);
    second.insert_char(0, 't');
    second.insert_char(1, 'e');
    assert_eq!(second.len(), 5);
    assert_eq!(second.apply(&mut text), Some(2));
    assert_eq!(text.to_string(), "te te");

    second.inverse().apply(&mut text);
    assert_eq!(text.to_string(), "test");
    first.inverse().apply(&mut text);
    assert_eq!(text.to_string(), "");
}

#[test]
fn merge_replays_through_the_recording_entry_points() {
    let mut tx = Transaction::new();
    tx.insert_str(0, "ab");

    let mut other = Transaction::new();
    other.insert_str(2, "cd");
    other.shift(1);
    other.shift(2);
    tx.merge(other);
    assert_eq!(tx.len(), 2);
    assert_eq!(insert_of(&tx, 0), ("abcd".to_string(), 0));
    assert_eq!(move_of(&tx, 1), 2);

    let mut more = Transaction::new();
    more.shift(9);
    more.delete_char(3, 't');
    tx.merge(more);
    assert_eq!(tx.len(), 3);
    assert_eq!(move_of(&tx, 1), 9);
    assert_eq!(delete_of(&tx, 2), ("t".to_string(), 3));
}

#[test]
fn merge_keeps_a_recorded_deletion_as_it_stands() {
    let mut other = Transaction::new();
    other.delete_char(3, 't');
    other.delete_char(2, 's');

    let mut tx = Transaction::new();
    tx.merge(other);
    assert_eq!(tx.len(), 1);
    assert_eq!(delete_of(&tx, 0), ("ts".to_string(), 2));

    let mut text = Rope::from_str("test");
    assert_eq!(tx.apply(&mut text), Some(2));
    assert_eq!(text.to_string(), "te");
    assert!(tx.inverse().apply(&mut text).is_some());
    assert_eq!(text.to_string(), "test");
}

#[test]
fn merge_extends_a_deletion_leftward() {
    let mut tx = Transaction::new();
    tx.delete_char(5, 'f');

    let mut other = Transaction::new();
    other.delete_str(5, "de");
    assert_eq!(delete_of(&other, 0), ("ed".to_string(), 3));
    tx.merge(other);
    assert_eq!(tx.len(), 1);
    assert_eq!(delete_of(&tx, 0), ("fed".to_string(), 3));

    let mut text = Rope::from_str("abcdef");
    assert_eq!(tx.apply(&mut text), Some(3));
    assert_eq!(text.to_string(), "abc");
    tx.inverse().apply(&mut text);
    assert_eq!(text.to_string(), "abcdef");
}

#[test]
fn merge_into_empty_gives_the_same_transaction() {
    let mut other = Transaction::new();
    other.insert_str(0, "ab");
    other.shift(1);
    other.delete_str(2, "ab");
    other.insert_char(0, 'x');

    let mut tx = Transaction::new();
    tx.merge(other);
    assert_eq!(tx.len(), 4);
    assert_eq!(insert_of(&tx, 0), ("ab".to_string(), 0));
    assert_eq!(move_of(&tx, 1), 1);
    assert_eq!(delete_of(&tx, 2), ("ba".to_string(), 0));
    assert_eq!(insert_of(&tx, 3), ("x".to_string(), 0));

    let mut text = Rope::new();
    assert_eq!(tx.apply(&mut text), Some(1));
    assert_eq!(text.to_string(), "x");
}

#[test]
fn merge_of_empty_changes_nothing() {
    let mut tx = Transaction::new();
    tx.insert_char(0, 'a');
    tx.merge(Transaction::new());
    assert_eq!(tx.len(), 1);
    assert_eq!(insert_of(&tx, 0), ("a".to_string(), 0));
}

#[test]
fn action_inverse_of_each_kind() {
    let mut tx = Transaction::new();
    tx.insert_str(3, "abc");
    match tx.get(0).unwrap().inverse() {
        Action::Delete(change) => {
            assert_eq!(change.content, "abc");
            assert_eq!(change.pos, 3);
        }
        other => panic!("{:?}", other),
    }
    let mut del = Transaction::new();
    del.delete_str(3, "abc");
    match del.get(0).unwrap().inverse() {
        Action::Insert(change) => {
            assert_eq!(change.content, "abc");
            assert_eq!(change.pos, 0);
        }
        other => panic!("{:?}", other),
    }
    match Action::Move(7).inverse() {
        Action::Move(pos) => assert_eq!(pos, 7),
        other => panic!("{:?}", other),
    }
}

#[test]
fn transaction_result_variants_are_distinct() {
    assert_ne!(TransactionResult::Commit, TransactionResult::Keep);
    assert_ne!(TransactionResult::Keep, TransactionResult::Abort);
    assert_eq!(TransactionResult::Abort, TransactionResult::Abort);
}

#[test]
fn string_helpers() {
    assert_eq!(char_width('a'), 1);
    assert_eq!(char_width('\u{7f}'), 1);
    assert_eq!(char_width('\u{80}'), 2);
    assert_eq!(char_width('\u{7ff}'), 2);
    assert_eq!(char_width('\u{800}'), 3);
    assert_eq!(char_width('\u{ffff}'), 3);
    assert_eq!(char_width('\u{10000}'), 4);
    assert_eq!(string_of_char('x'), "x");
    assert_eq!(string_of_char('é'), "é");
    assert_eq!(chars_of("aé\n"), vec!['a', 'é', '\n']);
    assert_eq!(chars_of(""), Vec::<char>::new());
    assert_eq!(reversed("abc"), "cba");
    assert_eq!(reversed("añ"), "ña");
    assert_eq!(reversed(""), "");
    assert!(str_eq("move_up", "move_up"));
    assert!(!str_eq("move_up", "move_down"));
    assert!(!str_eq("move", "move_up"));
    assert!(str_eq("", ""));
}
