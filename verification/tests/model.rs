use duzzy_editor::buffer::Buffer;
use duzzy_editor::transaction::Transaction;
use ropey::Rope;

const ALPHABET: [char; 12] = [
    'a', 'b', ' ', 'é', 'せ', '\u{10348}', '\n', '\r', '\u{0B}', '\u{0C}', '\u{85}', '\u{2028}',
];

/// A small generator of numbers that gives the same sequence on every run.
struct Numbers(u64);

impl Numbers {
    fn next(&mut self, below: usize) -> usize {
        self.0 = self.0.wrapping_mul(6364136223846793005).wrapping_add(1442695040888963407);
        ((self.0 >> 33) as usize) % below
    }

    fn text(&mut self, len: usize) -> String {
        (0..len).map(|_| ALPHABET[self.next(ALPHABET.len())]).collect()
    }
}

fn is_break(c: char) -> bool {
    matches!(c, '\n' | '\u{0B}' | '\u{0C}' | '\r' | '\u{85}' | '\u{2028}' | '\u{2029}')
}

/// The byte index at which each line starts, worked out from the characters.
fn line_starts(text: &str) -> Vec<usize> {
    let chars: Vec<char> = text.chars().collect();
    let mut starts = vec![0];
    let mut bytes = 0;
    for (i, c) in chars.iter().enumerate() {
        bytes += c.len_utf8();
        let inside_pair = *c == '\r' && chars.get(i + 1) == Some(&'\n');
        if is_break(*c) && !inside_pair {
            starts.push(bytes);
        }
    }
    starts
}

/// For each byte, the index of the character that it belongs to.
fn char_of_each_byte(text: &str) -> Vec<usize> {
    let mut owner = Vec::new();
    for (i, c) in text.chars().enumerate() {
        for _ in 0..c.len_utf8() {
            owner.push(i);
        }
    }
    owner.push(text.chars().count());
    owner
}

fn agrees(buffer: &Buffer, text: &str) {
    assert_eq!(buffer.text().to_string(), text);
    let starts = line_starts(text);
    let owner = char_of_each_byte(text);
    assert_eq!(buffer.byte_size(), text.len());
    assert_eq!(buffer.len_chars(), text.chars().count());
    assert_eq!(buffer.len_lines(), starts.len());
    for (line, start) in starts.iter().enumerate() {
        let end = starts.get(line + 1).copied().unwrap_or(text.len());
        assert_eq!(buffer.line_byte(line), *start);
        assert_eq!(buffer.len_bytes(line), end - start);
        let limit = if line + 1 < starts.len() {
            let last = text[*start..end].chars().last().unwrap();
            let pair = last == '\n' && text[*start..end].ends_with("\r\n");
            end - start - if pair { 2 } else { last.len_utf8() }
        } else {
            end - start
        };
        assert_eq!(buffer.max_offset(line), limit);
    }
    assert_eq!(buffer.line_byte(starts.len()), text.len());
    let mut line = 0;
    for byte in 0..=text.len() {
        let at_char_start = byte == text.len() || text.is_char_boundary(byte);
        while at_char_start && line + 1 < starts.len() && starts[line + 1] <= byte {
            line += 1;
        }
        assert_eq!(buffer.as_curs_pos(byte), (line, byte - starts[line]), "byte {}", byte);
        assert_eq!(buffer.char_index(byte), owner[byte], "byte {}", byte);
    }
    for (i, c) in text.chars().enumerate() {
        assert_eq!(buffer.char(i), c);
    }
}

#[test]
fn rope_agrees_with_line_model_on_mixed_text() {
    let mut numbers = Numbers(7);
    for len in [0, 1, 2, 3, 10, 200, 3000] {
        let text = numbers.text(len);
        let mut buffer = Buffer::new();
        buffer.set_text(Rope::from_str(&text));
        agrees(&buffer, &text);
    }
}

#[test]
fn rope_agrees_with_line_model_after_edits() {
    let mut numbers = Numbers(11);
    let mut text = numbers.text(1500);
    let mut buffer = Buffer::new();
    buffer.set_text(Rope::from_str(&text));
    for round in 0..40 {
        let chars: Vec<char> = text.chars().collect();
        let mut tx = Transaction::new();
        if round % 2 == 0 {
            let at = numbers.next(chars.len() + 1);
            let piece_len = 1 + numbers.next(4);
            let piece = numbers.text(piece_len);
            tx.insert_str(at, &piece);
            let mut next: String = chars[..at].iter().collect();
            next.push_str(&piece);
            next.extend(chars[at..].iter());
            text = next;
        } else {
            let from = numbers.next(chars.len());
            let to = (from + 1 + numbers.next(5)).min(chars.len());
            let gone: String = chars[from..to].iter().collect();
            tx.delete_str(to, &gone);
            let mut next: String = chars[..from].iter().collect();
            next.extend(chars[to..].iter());
            text = next;
        }
        assert!(buffer.edit(&tx).is_some());
        assert!(buffer.is_valid_pos(buffer.index(), buffer.offset()));
        agrees(&buffer, &text);
    }
}

#[test]
fn undo_restores_mixed_text_after_each_edit() {
    let mut numbers = Numbers(23);
    let text = numbers.text(400);
    let mut rope = Rope::from_str(&text);
    for _ in 0..60 {
        let before = rope.to_string();
        let chars: Vec<char> = before.chars().collect();
        let mut tx = Transaction::new();
        let from = numbers.next(chars.len());
        let to = (from + 1 + numbers.next(6)).min(chars.len());
        let gone: String = chars[from..to].iter().collect();
        tx.delete_str(to, &gone);
        tx.shift(from);
        tx.insert_str(from, &numbers.text(3));
        tx.insert_char(from + 3, '\n');
        assert_eq!(tx.len(), 3);
        assert_eq!(tx.apply(&mut rope), Some(from + 4));
        assert_ne!(rope.to_string(), before);
        let mut undone = rope.clone();
        assert!(tx.inverse().apply(&mut undone).is_some());
        assert_eq!(undone.to_string(), before);
    }
}
