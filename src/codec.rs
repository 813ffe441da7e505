use vstd::prelude::*;

use crate::message::{GameMessage, MessageView};

verus! {

/// The lowercase hexadecimal digit of `v` (`v < 16`).
pub open spec fn hex_char(v: int) -> char {
    if v < 10 {
        (48 + v) as char
    } else {
        (87 + v) as char
    }
}

/// The JSON text of one character inside a string literal: quote, backslash
/// and control characters escaped (the short forms where JSON has one), every
/// other character as it is.
pub open spec fn escape_char(c: char) -> Seq<char> {
    if c == '"' {
        seq!['\\', '"']
    } else if c == '\\' {
        seq!['\\', '\\']
    } else if c == '\u{8}' {
        seq!['\\', 'b']
    } else if c == '\u{c}' {
        seq!['\\', 'f']
    } else if c == '\n' {
        seq!['\\', 'n']
    } else if c == '\r' {
        seq!['\\', 'r']
    } else if c == '\t' {
        seq!['\\', 't']
    } else if (c as u32) < 0x20 {
        seq!['\\', 'u', '0', '0', hex_char((c as int) / 16), hex_char((c as int) % 16)]
    } else {
        seq![c]
    }
}

/// The JSON text of a string's contents, without the surrounding quotes.
pub open spec fn escape(s: Seq<char>) -> Seq<char>
    decreases s.len(),
{
    if s.len() == 0 {
        Seq::empty()
    } else {
        escape(s.drop_last()) + escape_char(s.last())
    }
}

/// The decimal digit for `d < 10`.
pub open spec fn digit_char(d: int) -> char {
    (48 + d) as char
}

/// The decimal digits of `n`, most significant first, without leading zeros.
pub open spec fn digits(n: nat) -> Seq<char>
    decreases n,
{
    if n < 10 {
        seq![digit_char(n as int)]
    } else {
        digits(n / 10).push(digit_char(n as int % 10))
    }
}

/// The decimal text of an integer: a minus sign for negatives, then digits.
pub open spec fn int_text(v: int) -> Seq<char> {
    if v < 0 {
        seq!['-'] + digits((-v) as nat)
    } else {
        digits(v as nat)
    }
}

/// Opening of a `Join` frame, up to the opening quote of the id.
pub open spec fn join_head() -> Seq<char> {
    "{\"Join\":{\"player_id\":\""@
}

pub open spec fn game_state_head() -> Seq<char> {
    "{\"GameState\":{\"player_id\":\""@
}

pub open spec fn line_cleared_head() -> Seq<char> {
    "{\"LineCleared\":{\"player_id\":\""@
}

pub open spec fn game_over_head() -> Seq<char> {
    "{\"GameOver\":{\"player_id\":\""@
}

pub open spec fn player_left_head() -> Seq<char> {
    "{\"PlayerLeft\":{\"player_id\":\""@
}

/// The score key, after the id.
pub open spec fn score_key() -> Seq<char> {
    ",\"score\":"@
}

/// The count key, after the id.
pub open spec fn count_key() -> Seq<char> {
    ",\"count\":"@
}

/// The two closing braces after a number.
pub open spec fn braces() -> Seq<char> {
    "}}"@
}

/// The escaped contents of a string, then its closing quote.
pub open spec fn quoted_rest(s: Seq<char>) -> Seq<char> {
    escape(s) + seq!['"']
}

/// The frame text of a message: a JSON object with the variant name as its
/// only key and the fields as an object, as in
/// `{"GameState":{"player_id":"p1","score":100}}`.
pub open spec fn encoding(m: MessageView) -> Seq<char> {
    match m {
        MessageView::Join { player_id } => join_head() + quoted_rest(player_id) + braces(),
        MessageView::GameState { player_id, score } => game_state_head() + quoted_rest(player_id)
            + score_key() + int_text(score as int) + braces(),
        MessageView::LineCleared { player_id, count } => line_cleared_head() + quoted_rest(
            player_id,
        ) + count_key() + int_text(count as int) + braces(),
        MessageView::GameOver { player_id } => game_over_head() + quoted_rest(player_id)
            + braces(),
        MessageView::PlayerLeft { player_id } => player_left_head() + quoted_rest(player_id)
            + braces(),
    }
}

/// JSON whitespace.
pub open spec fn is_ws(c: char) -> bool {
    c == ' ' || c == '\t' || c == '\n' || c == '\r'
}

/// The first position from `i` on that holds no whitespace.
pub open spec fn skip_ws(s: Seq<char>, i: int) -> int
    decreases s.len() - i,
{
    if 0 <= i < s.len() && is_ws(s[i]) {
        skip_ws(s, i + 1)
    } else {
        i
    }
}

/// The value of a hexadecimal digit (either case), or -1 for any other
/// character.
pub open spec fn hex_value(c: char) -> int {
    if '0' <= c && c <= '9' {
        c as int - 48
    } else if 'a' <= c && c <= 'f' {
        c as int - 87
    } else if 'A' <= c && c <= 'F' {
        c as int - 55
    } else {
        -1
    }
}

/// The value of the four hexadecimal digits at position `i`, or -1.
pub open spec fn hex4(s: Seq<char>, i: int) -> int {
    if 0 <= i && i + 4 <= s.len() && hex_value(s[i]) >= 0 && hex_value(s[i + 1]) >= 0
        && hex_value(s[i + 2]) >= 0 && hex_value(s[i + 3]) >= 0 {
        hex_value(s[i]) * 4096 + hex_value(s[i + 1]) * 256 + hex_value(s[i + 2]) * 16
            + hex_value(s[i + 3])
    } else {
        -1
    }
}

/// The character that the string text at position `i` of `s` stands for,
/// with the number of characters it takes: a plain character other than a
/// quote, backslash or control character, or any JSON escape. A `\u`
/// escape of a leading surrogate must be followed by one of a trailing
/// surrogate, and the pair stands for one character.
pub open spec fn unescape_at(s: Seq<char>, i: int) -> Option<(char, int)> {
    if i < 0 || i >= s.len() {
        None
    } else if s[i] == '\\' {
        if i + 1 >= s.len() {
            None
        } else if s[i + 1] == '"' {
            Some(('"', 2))
        } else if s[i + 1] == '\\' {
            Some(('\\', 2))
        } else if s[i + 1] == '/' {
            Some(('/', 2))
        } else if s[i + 1] == 'b' {
            Some(('\u{8}', 2))
        } else if s[i + 1] == 'f' {
            Some(('\u{c}', 2))
        } else if s[i + 1] == 'n' {
            Some(('\n', 2))
        } else if s[i + 1] == 'r' {
            Some(('\r', 2))
        } else if s[i + 1] == 't' {
            Some(('\t', 2))
        } else if s[i + 1] == 'u' {
            let v = hex4(s, i + 2);
            if v < 0 || (0xDC00 <= v && v <= 0xDFFF) {
                None
            } else if 0xD800 <= v && v <= 0xDBFF {
                let w = hex4(s, i + 8);
                if i + 7 < s.len() && s[i + 6] == '\\' && s[i + 7] == 'u' && 0xDC00 <= w && w <= 0xDFFF {
                    Some(((0x10000 + (v - 0xD800) * 1024 + (w - 0xDC00)) as char, 12))
                } else {
                    None
                }
            } else {
                Some((v as char, 6))
            }
        } else {
            None
        }
    } else if s[i] == '"' || (s[i] as u32) < 0x20 {
        None
    } else {
        Some((s[i], 1))
    }
}

/// Reads the contents of a string literal starting at position `i` (after
/// its opening quote): the characters it stands for and the position just
/// past its closing quote.
pub open spec fn scan_at(s: Seq<char>, i: int) -> Option<(Seq<char>, int)>
    decreases s.len() - i,
{
    if i < 0 || i >= s.len() {
        None
    } else if s[i] == '"' {
        Some((Seq::empty(), i + 1))
    } else {
        match unescape_at(s, i) {
            None => None,
            Some(p) => if p.1 > 0 {
                match scan_at(s, i + p.1) {
                    None => None,
                    Some(q) => Some((seq![p.0] + q.0, q.1)),
                }
            } else {
                None
            },
        }
    }
}

/// Decimal digits only.
pub open spec fn all_digits(d: Seq<char>) -> bool {
    forall|j: int| 0 <= j < d.len() ==> '0' <= #[trigger] d[j] && d[j] <= '9'
}

/// The value of a sequence of decimal digits.
pub open spec fn digits_value(d: Seq<char>) -> int
    decreases d.len(),
{
    if d.len() == 0 {
        0
    } else {
        digits_value(d.drop_last()) * 10 + (d.last() as int - 48)
    }
}

/// At least one digit, and no leading zero.
pub open spec fn canonical_digits(d: Seq<char>) -> bool {
    d.len() > 0 && all_digits(d) && (d[0] == '0' ==> d.len() == 1)
}

/// The integer that `t` writes as a JSON integer: an optional minus sign,
/// then digits without a leading zero.
pub open spec fn parse_int(t: Seq<char>) -> Option<int> {
    if t.len() > 0 && t[0] == '-' {
        let d = t.drop_first();
        if canonical_digits(d) {
            Some(-digits_value(d))
        } else {
            None
        }
    } else if canonical_digits(t) {
        Some(digits_value(t))
    } else {
        None
    }
}

/// The `i32` that `t` writes, if it writes one in range.
pub open spec fn parse_i32(t: Seq<char>) -> Option<i32> {
    match parse_int(t) {
        Some(v) => if i32::MIN <= v <= i32::MAX {
            Some(v as i32)
        } else {
            None
        },
        None => None,
    }
}

/// The first position from `i` on that holds no decimal digit.
pub open spec fn digit_end(s: Seq<char>, i: int) -> int
    decreases s.len() - i,
{
    if 0 <= i < s.len() && '0' <= s[i] && s[i] <= '9' {
        digit_end(s, i + 1)
    } else {
        i
    }
}

/// The JSON integer at position `i`, if it is one that fits in an `i32`,
/// with the position just past it.
pub open spec fn read_int(s: Seq<char>, i: int) -> Option<(i32, int)> {
    let ds = if 0 <= i < s.len() && s[i] == '-' {
        i + 1
    } else {
        i
    };
    let e = digit_end(s, ds);
    if 0 <= i <= e <= s.len() {
        match parse_i32(s.subrange(i, e)) {
            Some(v) => Some((v, e)),
            None => None,
        }
    } else {
        None
    }
}

/// The word `w` stands at position `i`.
pub open spec fn word_at(s: Seq<char>, i: int, w: Seq<char>) -> bool {
    0 <= i && i + w.len() <= s.len() && s.subrange(i, i + w.len()) == w
}

// States of the JSON value reader `skip_at`.
pub const VALUE: u8 = 0;

pub const AFTER: u8 = 1;

pub const KEY_OR_CLOSE: u8 = 2;

pub const KEY: u8 = 3;

pub const COLON: u8 = 4;

pub const ITEM_OR_CLOSE: u8 = 5;

pub const IN_STRING: u8 = 6;

pub const IN_KEY: u8 = 7;

pub const STRING_ESCAPE: u8 = 8;

pub const KEY_ESCAPE: u8 = 9;

pub const MINUS: u8 = 30;

pub const ZERO: u8 = 31;

pub const INTEGER: u8 = 32;

pub const POINT: u8 = 33;

pub const FRACTION: u8 = 34;

pub const EXPONENT_MARK: u8 = 35;

pub const EXPONENT_SIGN: u8 = 36;

pub const EXPONENT: u8 = 37;

/// A state that may end a number.
pub open spec fn number_may_end(st: u8) -> bool {
    st == ZERO || st == INTEGER || st == FRACTION || st == EXPONENT
}

/// Reads one JSON value, character by character, from position `i` in state
/// `st`, with `stack` the open objects (`true`) and arrays (`false`).
/// Gives the position just past the value once it is complete.
pub open spec fn skip_at(s: Seq<char>, i: int, stack: Seq<bool>, st: u8) -> Option<int>
    decreases s.len() - i, if st >= MINUS { 1int } else { 0int },
{
    if i < 0 || i > s.len() {
        None
    } else if st == AFTER && stack.len() == 0 {
        Some(i)
    } else if i == s.len() {
        None
    } else {
        let c = s[i];
        if st >= MINUS {
            if '0' <= c && c <= '9' && st != ZERO {
                if st == MINUS || st == INTEGER {
                    skip_at(s, i + 1, stack, if c == '0' && st == MINUS { ZERO } else { INTEGER })
                } else if st == POINT || st == FRACTION {
                    skip_at(s, i + 1, stack, FRACTION)
                } else {
                    skip_at(s, i + 1, stack, EXPONENT)
                }
            } else if c == '.' && (st == ZERO || st == INTEGER) {
                skip_at(s, i + 1, stack, POINT)
            } else if (c == 'e' || c == 'E') && (st == ZERO || st == INTEGER || st == FRACTION) {
                skip_at(s, i + 1, stack, EXPONENT_MARK)
            } else if (c == '+' || c == '-') && st == EXPONENT_MARK {
                skip_at(s, i + 1, stack, EXPONENT_SIGN)
            } else if number_may_end(st) {
                skip_at(s, i, stack, AFTER)
            } else {
                None
            }
        } else if st == VALUE || st == ITEM_OR_CLOSE {
            if is_ws(c) {
                skip_at(s, i + 1, stack, st)
            } else if st == ITEM_OR_CLOSE && c == ']' {
                skip_at(s, i + 1, stack.drop_last(), AFTER)
            } else if c == '{' {
                skip_at(s, i + 1, stack.push(true), KEY_OR_CLOSE)
            } else if c == '[' {
                skip_at(s, i + 1, stack.push(false), ITEM_OR_CLOSE)
            } else if c == '"' {
                skip_at(s, i + 1, stack, IN_STRING)
            } else if c == '-' {
                skip_at(s, i + 1, stack, MINUS)
            } else if c == '0' {
                skip_at(s, i + 1, stack, ZERO)
            } else if '1' <= c && c <= '9' {
                skip_at(s, i + 1, stack, INTEGER)
            } else if word_at(s, i, seq!['t', 'r', 'u', 'e']) || word_at(s, i, seq!['n', 'u', 'l', 'l']) {
                skip_at(s, i + 4, stack, AFTER)
            } else if word_at(s, i, seq!['f', 'a', 'l', 's', 'e']) {
                skip_at(s, i + 5, stack, AFTER)
            } else {
                None
            }
        } else if st == AFTER {
            if is_ws(c) {
                skip_at(s, i + 1, stack, AFTER)
            } else if c == ',' {
                skip_at(s, i + 1, stack, if stack.last() { KEY } else { VALUE })
            } else if (c == '}' && stack.last()) || (c == ']' && !stack.last()) {
                skip_at(s, i + 1, stack.drop_last(), AFTER)
            } else {
                None
            }
        } else if st == KEY_OR_CLOSE || st == KEY {
            if is_ws(c) {
                skip_at(s, i + 1, stack, st)
            } else if c == '"' {
                skip_at(s, i + 1, stack, IN_KEY)
            } else if st == KEY_OR_CLOSE && c == '}' {
                skip_at(s, i + 1, stack.drop_last(), AFTER)
            } else {
                None
            }
        } else if st == COLON {
            if is_ws(c) {
                skip_at(s, i + 1, stack, COLON)
            } else if c == ':' {
                skip_at(s, i + 1, stack, VALUE)
            } else {
                None
            }
        } else if st == IN_STRING || st == IN_KEY {
            if c == '"' {
                skip_at(s, i + 1, stack, if st == IN_STRING { AFTER } else { COLON })
            } else if c == '\\' {
                skip_at(s, i + 1, stack, if st == IN_STRING { STRING_ESCAPE } else { KEY_ESCAPE })
            } else if (c as u32) < 0x20 {
                None
            } else {
                skip_at(s, i + 1, stack, st)
            }
        } else if st == STRING_ESCAPE || st == KEY_ESCAPE {
            let back = if st == STRING_ESCAPE { IN_STRING } else { IN_KEY };
            if c == '"' || c == '\\' || c == '/' || c == 'b' || c == 'f' || c == 'n' || c == 'r'
                || c == 't' {
                skip_at(s, i + 1, stack, back)
            } else if c == 'u' && hex4(s, i + 1) >= 0 {
                skip_at(s, i + 5, stack, back)
            } else {
                None
            }
        } else {
            None
        }
    }
}

/// The JSON value at position `i` (after any whitespace), read and ignored:
/// the position just past it.
pub open spec fn skip_value(s: Seq<char>, i: int) -> Option<int> {
    skip_at(s, i, Seq::empty(), VALUE)
}

/// The variant a tag names: 0 to 4 for `Join`, `GameState`, `LineCleared`,
/// `GameOver`, `PlayerLeft`; -1 for any other tag.
pub open spec fn tag_kind(t: Seq<char>) -> int {
    if t == seq!['J', 'o', 'i', 'n'] {
        0
    } else if t == seq!['G', 'a', 'm', 'e', 'S', 't', 'a', 't', 'e'] {
        1
    } else if t == seq!['L', 'i', 'n', 'e', 'C', 'l', 'e', 'a', 'r', 'e', 'd'] {
        2
    } else if t == seq!['G', 'a', 'm', 'e', 'O', 'v', 'e', 'r'] {
        3
    } else if t == seq!['P', 'l', 'a', 'y', 'e', 'r', 'L', 'e', 'f', 't'] {
        4
    } else {
        -1
    }
}

/// The name of the id field.
pub open spec fn id_key() -> Seq<char> {
    seq!['p', 'l', 'a', 'y', 'e', 'r', '_', 'i', 'd']
}

/// The name of the number field of a variant (empty for those without one).
pub open spec fn number_key(kind: int) -> Seq<char> {
    if kind == 1 {
        seq!['s', 'c', 'o', 'r', 'e']
    } else if kind == 2 {
        seq!['c', 'o', 'u', 'n', 't']
    } else {
        Seq::empty()
    }
}

/// The variant has a number field.
pub open spec fn has_number(kind: int) -> bool {
    kind == 1 || kind == 2
}

/// The fields read so far: the id, the number, and the position reached.
pub type Fields = (Option<Seq<char>>, Option<i32>, int);

/// One member's value, at position `v`, for the key `key`: the id (a string,
/// not seen before), the variant's number (an integer, not seen before), or
/// any other JSON value, ignored.
pub open spec fn read_member(s: Seq<char>, v: int, kind: int, key: Seq<char>, f: Fields) -> Option<Fields> {
    if key == id_key() {
        if f.0 is Some || !(0 <= v < s.len() && s[v] == '"') {
            None
        } else {
            match scan_at(s, v + 1) {
                Some(q) => Some((Some(q.0), f.1, q.1)),
                None => None,
            }
        }
    } else if has_number(kind) && key == number_key(kind) {
        if f.1 is Some {
            None
        } else {
            match read_int(s, v) {
                Some(p) => Some((f.0, Some(p.0), p.1)),
                None => None,
            }
        }
    } else {
        match skip_value(s, v) {
            Some(e) => Some((f.0, f.1, e)),
            None => None,
        }
    }
}

/// The members of the fields object from position `i` (after whitespace) up
/// to its closing brace; `first` while no member has been read.
pub open spec fn read_fields(s: Seq<char>, i: int, kind: int, f: Fields, first: bool) -> Option<Fields>
    decreases s.len() - i,
{
    if i < 0 || i >= s.len() {
        None
    } else if first && s[i] == '}' {
        Some((f.0, f.1, i + 1))
    } else if s[i] != '"' {
        None
    } else {
        match scan_at(s, i + 1) {
            None => None,
            Some(k) => {
                let c = skip_ws(s, k.1);
                if !(0 <= c < s.len() && s[c] == ':') {
                    None
                } else {
                    match read_member(s, skip_ws(s, c + 1), kind, k.0, f) {
                        None => None,
                        Some(g) => {
                            let a = skip_ws(s, g.2);
                            if 0 <= a < s.len() && s[a] == '}' {
                                Some((g.0, g.1, a + 1))
                            } else if 0 <= a < s.len() && s[a] == ',' && i < skip_ws(s, a + 1) <= s.len() {
                                read_fields(s, skip_ws(s, a + 1), kind, (g.0, g.1, 0), false)
                            } else {
                                None
                            }
                        },
                    }
                }
            },
        }
    }
}

/// The fields given as an array, in declaration order, from position `i`
/// just after its opening bracket.
pub open spec fn read_items(s: Seq<char>, i: int, kind: int) -> Option<Fields> {
    let a = skip_ws(s, i);
    if !(0 <= a < s.len() && s[a] == '"') {
        None
    } else {
        match scan_at(s, a + 1) {
            None => None,
            Some(q) => {
                let b = skip_ws(s, q.1);
                if !has_number(kind) {
                    if 0 <= b < s.len() && s[b] == ']' {
                        Some((Some(q.0), None, b + 1))
                    } else {
                        None
                    }
                } else if 0 <= b < s.len() && s[b] == ',' {
                    match read_int(s, skip_ws(s, b + 1)) {
                        Some(p) => {
                            let d = skip_ws(s, p.1);
                            if 0 <= d < s.len() && s[d] == ']' {
                                Some((Some(q.0), Some(p.0), d + 1))
                            } else {
                                None
                            }
                        },
                        None => None,
                    }
                } else {
                    None
                }
            },
        }
    }
}

/// The message of a variant with the fields read.
pub open spec fn build(kind: int, id: Seq<char>, n: i32) -> MessageView {
    if kind == 0 {
        MessageView::Join { player_id: id }
    } else if kind == 1 {
        MessageView::GameState { player_id: id, score: n }
    } else if kind == 2 {
        MessageView::LineCleared { player_id: id, count: n }
    } else if kind == 3 {
        MessageView::GameOver { player_id: id }
    } else {
        MessageView::PlayerLeft { player_id: id }
    }
}

/// The message a JSON frame holds: an object with one key, the variant's
/// name, whose value holds the fields as an object (keys in any order,
/// unknown keys ignored, none twice) or as an array in declaration order.
/// Whitespace may stand between any two tokens and around the frame.
pub open spec fn read_frame(s: Seq<char>) -> Option<MessageView> {
    let a = skip_ws(s, 0);
    let b = skip_ws(s, a + 1);
    if !(0 <= a < s.len() && s[a] == '{' && 0 <= b < s.len() && s[b] == '"') {
        None
    } else {
        match scan_at(s, b + 1) {
            None => None,
            Some(t) => {
                let kind = tag_kind(t.0);
                let c = skip_ws(s, t.1);
                let e = skip_ws(s, c + 1);
                if kind < 0 || !(0 <= c < s.len() && s[c] == ':' && 0 <= e < s.len()) {
                    None
                } else {
                    let body = if s[e] == '{' {
                        read_fields(s, skip_ws(s, e + 1), kind, (None, None, 0), true)
                    } else if s[e] == '[' {
                        read_items(s, e + 1, kind)
                    } else {
                        None
                    };
                    match body {
                        None => None,
                        Some(g) => {
                            let f = skip_ws(s, g.2);
                            if g.0 is Some && (has_number(kind) ==> g.1 is Some) && 0 <= f < s.len()
                                && s[f] == '}' && skip_ws(s, f + 1) == s.len() {
                                Some(build(kind, g.0->0, if has_number(kind) { g.1->0 } else { 0 }))
                            } else {
                                None
                            }
                        },
                    }
                }
            },
        }
    }
}

proof fn lemma_hex(v: int)
    requires
        0 <= v < 16,
    ensures
        hex_value(hex_char(v)) == v,
        v < 2 ==> (hex_char(v) == '0' || hex_char(v) == '1'),
{
}

proof fn lemma_escape_front(t: Seq<char>)
    requires
        t.len() > 0,
    ensures
        escape(t) == escape_char(t[0]) + escape(t.drop_first()),
    decreases t.len(),
{
    if t.len() == 1 {
        assert(t.drop_last() =~= Seq::<char>::empty());
        assert(t.drop_first() =~= Seq::<char>::empty());
        assert(escape(t) =~= escape_char(t[0]) + escape(t.drop_first()));
    } else {
        lemma_escape_front(t.drop_last());
        assert(t.drop_last().drop_first() =~= t.drop_first().drop_last());
        assert(escape(t) =~= escape_char(t[0]) + escape(t.drop_first()));
    }
}

proof fn lemma_unescape_complete(s: Seq<char>, i: int, c: char)
    requires
        0 <= i,
        i + escape_char(c).len() <= s.len(),
        s.subrange(i, i + escape_char(c).len()) == escape_char(c),
    ensures
        unescape_at(s, i) == Some((c, escape_char(c).len() as int)),
        s[i] != '"',
{
    let e = escape_char(c);
    assert forall|j: int| 0 <= j < e.len() implies s[i + j] == #[trigger] e[j] by {
        assert(s.subrange(i, i + e.len())[j] == s[i + j]);
    }
    assert(s[i] == e[0]);
    if c == '"' || c == '\\' || c == '\u{8}' || c == '\u{c}' || c == '\n' || c == '\r' || c
        == '\t' {
        assert(s[i + 1] == e[1]);
    } else if (c as u32) < 0x20 {
        let v = c as int;
        lemma_hex(v / 16);
        lemma_hex(v % 16);
        assert(s[i + 1] == 'u');
        assert(s[i + 2] == '0');
        assert(s[i + 3] == '0');
        assert(s[i + 4] == hex_char(v / 16));
        assert(s[i + 5] == hex_char(v % 16));
        assert(hex_value(s[i + 4]) * 16 + hex_value(s[i + 5]) == v);
        assert((v as char) == c);
    } else {
        assert(s[i] == c);
    }
}

/// Reading back an escaped string and its closing quote gives the string.
proof fn lemma_scan_complete(s: Seq<char>, i: int, t: Seq<char>)
    requires
        0 <= i,
        i + escape(t).len() < s.len(),
        s.subrange(i, i + escape(t).len()) == escape(t),
        s[i + escape(t).len()] == '"',
    ensures
        scan_at(s, i) == Some((t, i + escape(t).len() + 1)),
    decreases t.len(),
{
    if t.len() == 0 {
        assert(escape(t).len() == 0);
    } else {
        lemma_escape_front(t);
        let e0 = escape_char(t[0]);
        let rest = escape(t.drop_first());
        assert(s.subrange(i, i + e0.len()) =~= e0) by {
            assert(escape(t).subrange(0, e0.len() as int) =~= e0);
            assert(s.subrange(i, i + e0.len()) =~= s.subrange(i, i + escape(t).len()).subrange(
                0,
                e0.len() as int,
            ));
        }
        lemma_unescape_complete(s, i, t[0]);
        assert(s.subrange(i + e0.len(), i + e0.len() + rest.len()) =~= rest) by {
            assert(escape(t).subrange(e0.len() as int, escape(t).len() as int) =~= rest);
            assert(s.subrange(i + e0.len(), i + e0.len() + rest.len()) =~= s.subrange(
                i,
                i + escape(t).len(),
            ).subrange(e0.len() as int, escape(t).len() as int));
        }
        lemma_scan_complete(s, i + e0.len(), t.drop_first());
        assert(seq![t[0]] + t.drop_first() =~= t);
    }
}

proof fn lemma_digits_value_nonneg(d: Seq<char>)
    requires
        all_digits(d),
    ensures
        digits_value(d) >= 0,
        d.len() > 0 && d[0] != '0' ==> digits_value(d) >= 1,
    decreases d.len(),
{
    if d.len() > 0 {
        assert(all_digits(d.drop_last()));
        lemma_digits_value_nonneg(d.drop_last());
        if d.len() > 1 {
            assert(d.drop_last()[0] == d[0]);
        }
    }
}

/// `digits` writes canonical digits that read back as the number.
proof fn lemma_digits_canonical(n: nat)
    ensures
        canonical_digits(digits(n)),
        digits_value(digits(n)) == n,
    decreases n,
{
    if n >= 10 {
        lemma_digits_canonical(n / 10);
        let d = digits(n);
        assert(d.drop_last() =~= digits(n / 10));
        assert(d[0] == digits(n / 10)[0]);
        assert(d.last() == digit_char(n as int % 10));
        assert((digit_char(n as int % 10) as int) == 48 + n as int % 10);
        assert(digits_value(d) == digits_value(digits(n / 10)) * 10 + n as int % 10);
        if digits(n / 10)[0] == '0' {
            let p = digits(n / 10);
            assert(p.len() == 1);
            assert(p.drop_last() =~= Seq::<char>::empty());
            assert(digits_value(p.drop_last()) == 0);
            assert(digits_value(p) == 0);
        }
    } else {
        let d = digits(n);
        assert(d.drop_last() =~= Seq::<char>::empty());
        assert(digits_value(d.drop_last()) == 0);
        assert((digit_char(n as int) as int) == 48 + n);
    }
}

proof fn lemma_parse_int_complete(v: int)
    ensures
        parse_int(int_text(v)) == Some(v),
{
    if v < 0 {
        let d = digits((-v) as nat);
        lemma_digits_canonical((-v) as nat);
        let t = int_text(v);
        assert(t[0] == '-');
        assert(t.drop_first() =~= d);
        if d[0] == '0' {
            assert(d.len() == 1);
            assert(digits_value(d) == digits_value(d.drop_last()) * 10 + 0);
            assert(d.drop_last() =~= Seq::<char>::empty());
        }
        assert(parse_int(t) == Some(-digits_value(d)));
    } else {
        lemma_digits_canonical(v as nat);
        assert(int_text(v)[0] != '-');
    }
}

/// The opening of a frame up to the opening quote of the id, for the tag `t`.
pub open spec fn tag_open(t: Seq<char>) -> Seq<char> {
    seq!['{', '"'] + t + seq!['"', ':', '{', '"'] + id_key() + seq!['"', ':', '"']
}

/// A key of a number field, between the id and the number.
pub open spec fn number_open(k: Seq<char>) -> Seq<char> {
    seq![',', '"'] + k + seq!['"', ':']
}

proof fn lemma_heads()
    ensures
        join_head() == tag_open(seq!['J', 'o', 'i', 'n']),
        game_state_head() == tag_open(seq!['G', 'a', 'm', 'e', 'S', 't', 'a', 't', 'e']),
        line_cleared_head() == tag_open(seq!['L', 'i', 'n', 'e', 'C', 'l', 'e', 'a', 'r', 'e', 'd']),
        game_over_head() == tag_open(seq!['G', 'a', 'm', 'e', 'O', 'v', 'e', 'r']),
        player_left_head() == tag_open(seq!['P', 'l', 'a', 'y', 'e', 'r', 'L', 'e', 'f', 't']),
        score_key() == number_open(number_key(1)),
        count_key() == number_open(number_key(2)),
        braces() == seq!['}', '}'],
{
    reveal_strlit("{\"Join\":{\"player_id\":\"");
    reveal_strlit("{\"GameState\":{\"player_id\":\"");
    reveal_strlit("{\"LineCleared\":{\"player_id\":\"");
    reveal_strlit("{\"GameOver\":{\"player_id\":\"");
    reveal_strlit("{\"PlayerLeft\":{\"player_id\":\"");
    reveal_strlit(",\"score\":");
    reveal_strlit(",\"count\":");
    reveal_strlit("}}");
    assert(join_head() =~= tag_open(seq!['J', 'o', 'i', 'n']));
    assert(game_state_head() =~= tag_open(seq!['G', 'a', 'm', 'e', 'S', 't', 'a', 't', 'e']));
    assert(line_cleared_head() =~= tag_open(
        seq!['L', 'i', 'n', 'e', 'C', 'l', 'e', 'a', 'r', 'e', 'd'],
    ));
    assert(game_over_head() =~= tag_open(seq!['G', 'a', 'm', 'e', 'O', 'v', 'e', 'r']));
    assert(player_left_head() =~= tag_open(seq!['P', 'l', 'a', 'y', 'e', 'r', 'L', 'e', 'f', 't']));
    assert(score_key() =~= number_open(number_key(1)));
    assert(count_key() =~= number_open(number_key(2)));
    assert(braces() =~= seq!['}', '}']);
}

/// No quote, backslash or control character.
pub open spec fn plain(t: Seq<char>) -> bool {
    forall|j: int| 0 <= j < t.len() ==> (#[trigger] t[j] as u32) >= 0x20 && t[j] != '"' && t[j] != '\\'
}

/// A string of plain characters reads back as itself.
proof fn lemma_scan_plain(s: Seq<char>, i: int, n: int)
    requires
        0 <= i,
        0 <= n,
        i + n < s.len(),
        plain(s.subrange(i, i + n)),
        s[i + n] == '"',
    ensures
        scan_at(s, i) == Some((s.subrange(i, i + n), i + n + 1)),
    decreases n,
{
    if n == 0 {
        assert(s.subrange(i, i) =~= Seq::<char>::empty());
    } else {
        assert(s.subrange(i, i + n)[0] == s[i]);
        assert(plain(s.subrange(i + 1, i + n))) by {
            assert forall|j: int| 0 <= j < n - 1 implies #[trigger] s.subrange(i + 1, i + n)[j] == s.subrange(i, i + n)[j + 1] by {}
        }
        lemma_scan_plain(s, i + 1, n - 1);
        assert(seq![s[i]] + s.subrange(i + 1, i + n) =~= s.subrange(i, i + n));
    }
}

proof fn lemma_digit_end(s: Seq<char>, i: int, n: int)
    requires
        0 <= i,
        0 <= n,
        i + n < s.len(),
        all_digits(s.subrange(i, i + n)),
        !('0' <= s[i + n] && s[i + n] <= '9'),
    ensures
        digit_end(s, i) == i + n,
    decreases n,
{
    if n > 0 {
        assert(s.subrange(i, i + n)[0] == s[i]);
        assert(all_digits(s.subrange(i + 1, i + n))) by {
            assert forall|j: int| 0 <= j < n - 1 implies '0' <= #[trigger] s.subrange(i + 1, i + n)[j]
                && s.subrange(i + 1, i + n)[j] <= '9' by {
                assert(s.subrange(i + 1, i + n)[j] == s.subrange(i, i + n)[j + 1]);
            }
        }
        lemma_digit_end(s, i + 1, n - 1);
    }
}

/// The text of an `i32` reads back as it, when no digit follows.
proof fn lemma_read_int_text(s: Seq<char>, i: int, v: i32)
    requires
        0 <= i,
        i + int_text(v as int).len() < s.len(),
        s.subrange(i, i + int_text(v as int).len()) == int_text(v as int),
        !('0' <= s[i + int_text(v as int).len()] && s[i + int_text(v as int).len()] <= '9'),
    ensures
        read_int(s, i) == Some((v, i + int_text(v as int).len())),
{
    let t = int_text(v as int);
    let e = i + t.len();
    lemma_parse_int_complete(v as int);
    if v < 0 {
        let d = digits((-v) as nat);
        lemma_digits_canonical((-v) as nat);
        assert(t =~= seq!['-'] + d);
        assert(s[i] == t[0]);
        assert(s.subrange(i + 1, e) =~= d) by {
            assert forall|j: int| 0 <= j < d.len() implies #[trigger] s.subrange(i + 1, e)[j] == d[j] by {
                assert(s.subrange(i, e)[j + 1] == t[j + 1]);
            }
        }
        lemma_digit_end(s, i + 1, d.len() as int);
    } else {
        lemma_digits_canonical(v as nat);
        assert(t == digits(v as nat));
        assert(s[i] == t[0]);
        lemma_digit_end(s, i, t.len() as int);
    }
}

proof fn lemma_ws_stop(s: Seq<char>, i: int)
    requires
        0 <= i < s.len(),
        !is_ws(s[i]),
    ensures
        skip_ws(s, i) == i,
{
}

/// The layout of a frame up to the end of the id.
pub open spec fn id_layout(s: Seq<char>, t: Seq<char>, id: Seq<char>, p: int) -> bool {
    let n = t.len() as int;
    &&& 0 <= n
    &&& 19 + n <= p < s.len()
    &&& s[0] == '{' && s[1] == '"'
    &&& scan_at(s, 2) == Some((t, 3 + n))
    &&& s[3 + n] == ':' && s[4 + n] == '{' && s[5 + n] == '"'
    &&& scan_at(s, 6 + n) == Some((id_key(), 16 + n))
    &&& s[16 + n] == ':' && s[17 + n] == '"'
    &&& scan_at(s, 18 + n) == Some((id, p))
}

proof fn lemma_read_head(s: Seq<char>, t: Seq<char>, id: Seq<char>, p: int)
    requires
        id_layout(s, t, id, p),
        0 <= tag_kind(t),
    ensures
        read_member(s, 17 + t.len() as int, tag_kind(t), id_key(), (None, None, 0)) == Some(
            (Some(id), None::<i32>, p),
        ),
        skip_ws(s, 0) == 0,
        skip_ws(s, 1) == 1,
        skip_ws(s, 3 + t.len() as int) == 3 + t.len() as int,
        skip_ws(s, 4 + t.len() as int) == 4 + t.len() as int,
        skip_ws(s, 5 + t.len() as int) == 5 + t.len() as int,
        skip_ws(s, 16 + t.len() as int) == 16 + t.len() as int,
        skip_ws(s, 17 + t.len() as int) == 17 + t.len() as int,
{
    let n = t.len() as int;
    lemma_ws_stop(s, 0);
    lemma_ws_stop(s, 1);
    lemma_ws_stop(s, 3 + n);
    lemma_ws_stop(s, 4 + n);
    lemma_ws_stop(s, 5 + n);
    lemma_ws_stop(s, 16 + n);
    lemma_ws_stop(s, 17 + n);
}

#[verifier::rlimit(50)]
proof fn lemma_read_id_frame(s: Seq<char>, t: Seq<char>, id: Seq<char>, p: int)
    requires
        id_layout(s, t, id, p),
        0 <= tag_kind(t),
        !has_number(tag_kind(t)),
        s.len() == p + 2,
        s[p] == '}' && s[p + 1] == '}',
    ensures
        read_frame(s) == Some(build(tag_kind(t), id, 0)),
{
    let n = t.len() as int;
    lemma_read_head(s, t, id, p);
    lemma_ws_stop(s, p);
    lemma_ws_stop(s, p + 1);
    assert(read_fields(s, 5 + n, tag_kind(t), (None, None, 0), true) == Some(
        (Some(id), None::<i32>, p + 1),
    ));
}

/// The layout of the number member after the id.
pub open spec fn number_layout(s: Seq<char>, kind: int, p: int, v: i32, q: int) -> bool {
    &&& 0 <= p
    &&& s[p] == ',' && s[p + 1] == '"'
    &&& scan_at(s, p + 2) == Some((number_key(kind), p + 8))
    &&& s[p + 8] == ':'
    &&& p + 9 < s.len()
    &&& !is_ws(s[p + 9])
    &&& read_int(s, p + 9) == Some((v, q))
    &&& s.len() == q + 2
    &&& s[q] == '}' && s[q + 1] == '}'
}

#[verifier::rlimit(50)]
proof fn lemma_read_number_member(s: Seq<char>, kind: int, id: Seq<char>, p: int, v: i32, q: int)
    requires
        number_layout(s, kind, p, v, q),
        has_number(kind),
    ensures
        read_fields(s, p + 1, kind, (Some(id), None, 0), false) == Some((Some(id), Some(v), q + 1)),
{
    lemma_ws_stop(s, p + 8);
    lemma_ws_stop(s, p + 9);
    lemma_ws_stop(s, q);
    assert(number_key(kind) != id_key()) by {
        assert(number_key(kind).len() != id_key().len());
    }
    assert(read_member(s, p + 9, kind, number_key(kind), (Some(id), None, 0)) == Some(
        (Some(id), Some(v), q),
    ));
}

#[verifier::rlimit(50)]
proof fn lemma_read_number_frame(s: Seq<char>, t: Seq<char>, id: Seq<char>, p: int, v: i32, q: int)
    requires
        id_layout(s, t, id, p),
        0 <= tag_kind(t),
        has_number(tag_kind(t)),
        number_layout(s, tag_kind(t), p, v, q),
    ensures
        read_frame(s) == Some(build(tag_kind(t), id, v)),
{
    let n = t.len() as int;
    let kind = tag_kind(t);
    lemma_read_head(s, t, id, p);
    lemma_ws_stop(s, p);
    lemma_ws_stop(s, p + 1);
    lemma_ws_stop(s, q + 1);
    lemma_read_number_member(s, kind, id, p, v, q);
    assert(read_fields(s, 5 + n, kind, (None, None, 0), true) == Some((Some(id), Some(v), q + 1)));
}

/// What the opening of a frame holds, position by position.
#[verifier::rlimit(100)]
proof fn lemma_open_facts(s: Seq<char>, t: Seq<char>)
    requires
        plain(t),
        s.len() > 18 + t.len(),
        s.subrange(0, 18 + t.len() as int) == tag_open(t),
    ensures
        s[0] == '{' && s[1] == '"',
        scan_at(s, 2) == Some((t, 3 + t.len() as int)),
        s[3 + t.len() as int] == ':' && s[4 + t.len() as int] == '{' && s[5 + t.len() as int] == '"',
        scan_at(s, 6 + t.len() as int) == Some((id_key(), 16 + t.len() as int)),
        s[16 + t.len() as int] == ':' && s[17 + t.len() as int] == '"',
{
    let n = t.len() as int;
    let h = tag_open(t);
    assert forall|k: int| 0 <= k < 18 + n implies s[k] == #[trigger] h[k] by {
        assert(s.subrange(0, 18 + n)[k] == s[k]);
    }
    assert(h[0] == '{' && h[1] == '"' && h[2 + n] == '"' && h[3 + n] == ':' && h[4 + n] == '{'
        && h[5 + n] == '"' && h[15 + n] == '"' && h[16 + n] == ':' && h[17 + n] == '"');
    assert(s.subrange(2, 2 + n) =~= t) by {
        assert forall|k: int| 0 <= k < n implies #[trigger] s.subrange(2, 2 + n)[k] == t[k] by {
            assert(h[2 + k] == t[k]);
        }
    }
    lemma_scan_plain(s, 2, n);
    assert(s.subrange(6 + n, 15 + n) =~= id_key()) by {
        assert forall|k: int| 0 <= k < 9 implies #[trigger] s.subrange(6 + n, 15 + n)[k] == id_key()[k] by {
            assert(h[6 + n + k] == id_key()[k]);
        }
    }
    assert(plain(id_key()));
    lemma_scan_plain(s, 6 + n, 9);
}

/// The tag, key and id of a frame stand where `id_layout` says.
#[verifier::rlimit(100)]
proof fn lemma_head_layout(t: Seq<char>, id: Seq<char>, rest: Seq<char>)
    requires
        plain(t),
        rest.len() > 0,
    ensures
        id_layout(tag_open(t) + escape(id) + seq!['"'] + rest, t, id, (tag_open(t).len() + escape(id).len() + 1) as int),
        (tag_open(t) + escape(id) + seq!['"'] + rest).subrange(
            (tag_open(t).len() + escape(id).len() + 1) as int,
            (tag_open(t) + escape(id) + seq!['"'] + rest).len() as int,
        ) == rest,
{
    let h = tag_open(t);
    let s = h + escape(id) + seq!['"'] + rest;
    let n = t.len() as int;
    let hl = h.len() as int;
    let el = escape(id).len() as int;
    assert(hl == 18 + n);
    assert(s.subrange(0, hl) =~= h);
    lemma_open_facts(s, t);
    assert(s.subrange(hl, hl + el) =~= escape(id));
    assert(s[hl + el] == '"');
    lemma_scan_complete(s, hl, id);
    assert(s.subrange(hl + el + 1, s.len() as int) =~= rest);
}

/// A frame with an id only, for a tag of a variant without a number, reads
/// back as that variant.
proof fn lemma_id_frame(t: Seq<char>, id: Seq<char>)
    requires
        plain(t),
        0 <= tag_kind(t),
        !has_number(tag_kind(t)),
    ensures
        read_frame(tag_open(t) + escape(id) + seq!['"'] + seq!['}', '}']) == Some(build(tag_kind(t), id, 0)),
{
    let rest = seq!['}', '}'];
    let s = tag_open(t) + escape(id) + seq!['"'] + rest;
    let p = (tag_open(t).len() + escape(id).len() + 1) as int;
    lemma_head_layout(t, id, rest);
    assert(s[p] == rest[0] && s[p + 1] == rest[1]) by {
        assert(s.subrange(p, s.len() as int)[0] == s[p]);
        assert(s.subrange(p, s.len() as int)[1] == s[p + 1]);
    }
    lemma_read_id_frame(s, t, id, p);
}

/// A frame with an id and a number, for a tag of a variant with a number,
/// reads back as that variant.
#[verifier::rlimit(100)]
proof fn lemma_number_frame(t: Seq<char>, id: Seq<char>, v: i32)
    requires
        plain(t),
        0 <= tag_kind(t),
        has_number(tag_kind(t)),
    ensures
        read_frame(
            tag_open(t) + escape(id) + seq!['"'] + (number_open(number_key(tag_kind(t))) + int_text(
                v as int,
            ) + seq!['}', '}']),
        ) == Some(build(tag_kind(t), id, v)),
{
    let kind = tag_kind(t);
    let k = number_key(kind);
    let it = int_text(v as int);
    let rest = number_open(k) + it + seq!['}', '}'];
    let s = tag_open(t) + escape(id) + seq!['"'] + rest;
    let p = (tag_open(t).len() + escape(id).len() + 1) as int;
    lemma_head_layout(t, id, rest);
    let r = s.subrange(p, s.len() as int);
    assert(forall|j: int| 0 <= j < rest.len() ==> s[p + j] == #[trigger] rest[j]) by {
        assert forall|j: int| 0 <= j < rest.len() implies s[p + j] == #[trigger] rest[j] by {
            assert(r[j] == s[p + j]);
        }
    }
    assert(k.len() == 5 && plain(k));
    let q = p + 9 + it.len() as int;
    assert(s.len() == q + 2);
    assert(s[p] == ',' && s[p + 1] == '"' && s[p + 7] == '"' && s[p + 8] == ':') by {
        assert(rest[0] == ',' && rest[1] == '"' && rest[7] == '"' && rest[8] == ':');
    }
    assert(s.subrange(p + 2, p + 7) =~= k) by {
        assert forall|j: int| 0 <= j < 5 implies #[trigger] s.subrange(p + 2, p + 7)[j] == k[j] by {
            assert(rest[2 + j] == k[j]);
        }
    }
    lemma_scan_plain(s, p + 2, 5);
    assert(s.subrange(p + 9, q) =~= it) by {
        assert forall|j: int| 0 <= j < it.len() implies #[trigger] s.subrange(p + 9, q)[j] == it[j] by {
            assert(rest[9 + j] == it[j]);
        }
    }
    assert(s[q] == '}' && s[q + 1] == '}') by {
        assert(rest[9 + it.len() as int] == '}' && rest[10 + it.len() as int] == '}');
    }
    lemma_read_int_text(s, p + 9, v);
    lemma_digits_canonical(if v < 0 { (-v) as nat } else { v as nat });
    assert(s[p + 9] == it[0]);
    assert(!is_ws(it[0])) by {
        if v >= 0 {
            assert(it == digits(v as nat));
        }
    }
    assert(number_layout(s, kind, p, v, q));
    lemma_read_number_frame(s, t, id, p, v, q);
}

proof fn lemma_round_trip_id(m: MessageView, t: Seq<char>, head: Seq<char>, id: Seq<char>)
    requires
        plain(t),
        0 <= tag_kind(t),
        !has_number(tag_kind(t)),
        head == tag_open(t),
        encoding(m) == head + quoted_rest(id) + braces(),
        braces() == seq!['}', '}'],
        build(tag_kind(t), id, 0) == m,
    ensures
        read_frame(encoding(m)) == Some(m),
{
    lemma_id_frame(t, id);
    assert(encoding(m) =~= tag_open(t) + escape(id) + seq!['"'] + seq!['}', '}']);
}

proof fn lemma_round_trip_number(m: MessageView, t: Seq<char>, head: Seq<char>, key: Seq<char>, id: Seq<char>, v: i32)
    requires
        plain(t),
        0 <= tag_kind(t),
        has_number(tag_kind(t)),
        head == tag_open(t),
        key == number_open(number_key(tag_kind(t))),
        encoding(m) == head + quoted_rest(id) + key + int_text(v as int) + braces(),
        braces() == seq!['}', '}'],
        build(tag_kind(t), id, v) == m,
    ensures
        read_frame(encoding(m)) == Some(m),
{
    lemma_number_frame(t, id, v);
    assert(encoding(m) =~= tag_open(t) + escape(id) + seq!['"'] + (key + int_text(v as int) + seq![
        '}',
        '}',
    ]));
}

proof fn lemma_tag(t: Seq<char>, k: int)
    requires
        (k == 0 && t == seq!['J', 'o', 'i', 'n']) || (k == 1 && t == seq![
            'G',
            'a',
            'm',
            'e',
            'S',
            't',
            'a',
            't',
            'e',
        ]) || (k == 2 && t == seq!['L', 'i', 'n', 'e', 'C', 'l', 'e', 'a', 'r', 'e', 'd']) || (k == 3
            && t == seq!['G', 'a', 'm', 'e', 'O', 'v', 'e', 'r']) || (k == 4 && t == seq![
            'P',
            'l',
            'a',
            'y',
            'e',
            'r',
            'L',
            'e',
            'f',
            't',
        ]),
    ensures
        plain(t),
        tag_kind(t) == k,
{
    if k == 1 {
        assert(t != seq!['J', 'o', 'i', 'n']) by {
            assert(t.len() != 4);
        }
    } else if k == 2 {
        assert(t.len() == 11);
    } else if k == 3 {
        assert(t != seq!['J', 'o', 'i', 'n']) by {
            assert(t.len() != 4);
        }
        assert(t != seq!['G', 'a', 'm', 'e', 'S', 't', 'a', 't', 'e']) by {
            assert(t.len() != 9);
        }
    } else if k == 4 {
        assert(t.len() == 10);
    }
}

/// Every message reads back from its frame text as itself.
pub proof fn lemma_round_trip(m: MessageView)
    ensures
        read_frame(encoding(m)) == Some(m),
{
    lemma_heads();
    match m {
        MessageView::Join { player_id } => {
            let t = seq!['J', 'o', 'i', 'n'];
            lemma_tag(t, 0);
            lemma_round_trip_id(m, t, join_head(), player_id);
        },
        MessageView::GameState { player_id, score } => {
            let t = seq!['G', 'a', 'm', 'e', 'S', 't', 'a', 't', 'e'];
            lemma_tag(t, 1);
            lemma_round_trip_number(m, t, game_state_head(), score_key(), player_id, score);
        },
        MessageView::LineCleared { player_id, count } => {
            let t = seq!['L', 'i', 'n', 'e', 'C', 'l', 'e', 'a', 'r', 'e', 'd'];
            lemma_tag(t, 2);
            lemma_round_trip_number(m, t, line_cleared_head(), count_key(), player_id, count);
        },
        MessageView::GameOver { player_id } => {
            let t = seq!['G', 'a', 'm', 'e', 'O', 'v', 'e', 'r'];
            lemma_tag(t, 3);
            lemma_round_trip_id(m, t, game_over_head(), player_id);
        },
        MessageView::PlayerLeft { player_id } => {
            let t = seq!['P', 'l', 'a', 'y', 'e', 'r', 'L', 'e', 'f', 't'];
            lemma_tag(t, 4);
            lemma_round_trip_id(m, t, player_left_head(), player_id);
        },
    }
}

proof fn lemma_digits_value_prefix(d: Seq<char>, j: int)
    requires
        all_digits(d),
        0 <= j <= d.len(),
    ensures
        digits_value(d.take(j)) <= digits_value(d),
    decreases d.len(),
{
    if j < d.len() {
        assert(all_digits(d.drop_last()));
        lemma_digits_value_nonneg(d.drop_last());
        lemma_digits_value_prefix(d.drop_last(), j);
        assert(d.drop_last().take(j) =~= d.take(j));
    } else {
        assert(d.take(j) =~= d);
    }
}

/// Relies on `String::push`: appends one character.
#[verifier::external_body]
fn push_char(s: &mut String, c: char)
    ensures
        final(s)@ == old(s)@.push(c),
{
    s.push(c)
}

/// The hexadecimal digit of a value below 16.
fn hex_digit(v: u32) -> (r: char)
    requires
        v < 16,
    ensures
        r == hex_char(v as int),
{
    if v < 10 {
        ((48 + v) as u8) as char
    } else {
        ((87 + v) as u8) as char
    }
}

/// Appends the escaped form of one character.
fn push_escaped_char(out: &mut String, c: char)
    ensures
        final(out)@ == old(out)@ + escape_char(c),
{
    let ghost o = out@;
    if c == '"' {
        push_char(out, '\\');
        push_char(out, '"');
    } else if c == '\\' {
        push_char(out, '\\');
        push_char(out, '\\');
    } else if c == '\u{8}' {
        push_char(out, '\\');
        push_char(out, 'b');
    } else if c == '\u{c}' {
        push_char(out, '\\');
        push_char(out, 'f');
    } else if c == '\n' {
        push_char(out, '\\');
        push_char(out, 'n');
    } else if c == '\r' {
        push_char(out, '\\');
        push_char(out, 'r');
    } else if c == '\t' {
        push_char(out, '\\');
        push_char(out, 't');
    } else if (c as u32) < 0x20 {
        push_char(out, '\\');
        push_char(out, 'u');
        push_char(out, '0');
        push_char(out, '0');
        push_char(out, hex_digit((c as u32) / 16));
        push_char(out, hex_digit((c as u32) % 16));
    } else {
        push_char(out, c);
    }
    assert(out@ =~= o + escape_char(c));
}

/// Appends the escaped form of a string's characters.
fn push_escaped(out: &mut String, s: &String)
    ensures
        final(out)@ == old(out)@ + escape(s@),
{
    let ghost o = out@;
    for c in it: s.as_str().chars()
        invariant
            it.seq() == s@,
            out@ == o + escape(s@.take(it.index() as int)),
    {
        let ghost i = it.index();
        push_escaped_char(out, c);
        assert(s@.take(i + 1).drop_last() =~= s@.take(i as int));
        assert(out@ =~= o + escape(s@.take(i + 1)));
    }
    assert(s@.take(s@.len() as int) =~= s@);
}

/// Appends the decimal digits of `n`.
fn push_digits(out: &mut String, n: u32)
    ensures
        final(out)@ == old(out)@ + digits(n as nat),
    decreases n,
{
    let ghost o = out@;
    if n >= 10 {
        push_digits(out, n / 10);
    }
    push_char(out, ((48 + n % 10) as u8) as char);
    assert(out@ =~= o + digits(n as nat));
}

/// Appends the decimal text of `v`.
fn push_int(out: &mut String, v: i32)
    ensures
        final(out)@ == old(out)@ + int_text(v as int),
{
    let ghost o = out@;
    if v < 0 {
        push_char(out, '-');
        let magnitude: u32 = (0 - (v as i64)) as u32;
        push_digits(out, magnitude);
    } else {
        push_digits(out, v as u32);
    }
    assert(out@ =~= o + int_text(v as int));
}

/// The frame text of a message.
pub fn encode(m: &GameMessage) -> (r: String)
    ensures
        r@ == encoding(m@),
{
    let mut out = String::new();
    match m {
        GameMessage::Join { player_id } => {
            out.append("{\"Join\":{\"player_id\":\"");
            push_escaped(&mut out, player_id);
            push_char(&mut out, '"');
            out.append("}}");
        },
        GameMessage::GameState { player_id, score } => {
            out.append("{\"GameState\":{\"player_id\":\"");
            push_escaped(&mut out, player_id);
            push_char(&mut out, '"');
            out.append(",\"score\":");
            push_int(&mut out, *score);
            out.append("}}");
        },
        GameMessage::LineCleared { player_id, count } => {
            out.append("{\"LineCleared\":{\"player_id\":\"");
            push_escaped(&mut out, player_id);
            push_char(&mut out, '"');
            out.append(",\"count\":");
            push_int(&mut out, *count);
            out.append("}}");
        },
        GameMessage::GameOver { player_id } => {
            out.append("{\"GameOver\":{\"player_id\":\"");
            push_escaped(&mut out, player_id);
            push_char(&mut out, '"');
            out.append("}}");
        },
        GameMessage::PlayerLeft { player_id } => {
            out.append("{\"PlayerLeft\":{\"player_id\":\"");
            push_escaped(&mut out, player_id);
            push_char(&mut out, '"');
            out.append("}}");
        },
    }
    assert(out@ =~= encoding(m@));
    out
}

/// The characters of a frame.
fn chars_of(frame: &str) -> (r: Vec<char>)
    ensures
        r@ == frame@,
{
    let mut r: Vec<char> = Vec::new();
    for c in it: frame.chars()
        invariant
            it.seq() == frame@,
            r@ == frame@.take(it.index() as int),
    {
        r.push(c);
        assert(r@ =~= frame@.take(it.index() + 1));
    }
    assert(frame@.take(frame@.len() as int) =~= frame@);
    r
}

/// The value of a hexadecimal digit, or -1.
fn hex_val(c: char) -> (r: i32)
    ensures
        r == hex_value(c),
{
    if '0' <= c && c <= '9' {
        (c as u32 - 48) as i32
    } else if 'a' <= c && c <= 'f' {
        (c as u32 - 87) as i32
    } else if 'A' <= c && c <= 'F' {
        (c as u32 - 55) as i32
    } else {
        -1
    }
}

/// The value of the four hexadecimal digits at position `i`, or -1.
fn hex4_at(buf: &Vec<char>, i: usize) -> (r: i32)
    ensures
        r == hex4(buf@, i as int),
{
    if i > buf.len() || buf.len() - i < 4 {
        return -1;
    }
    let a = hex_val(buf[i]);
    let b = hex_val(buf[i + 1]);
    let c = hex_val(buf[i + 2]);
    let d = hex_val(buf[i + 3]);
    if a < 0 || b < 0 || c < 0 || d < 0 {
        -1
    } else {
        a * 4096 + b * 256 + c * 16 + d
    }
}

/// Relies on `char::from_u32`: the character with that code, or `None` for
/// a surrogate or a value past `0x10FFFF`.
#[verifier::external_body]
fn char_from(v: u32) -> (r: Option<char>)
    ensures
        (v < 0xD800 || (0xE000 <= v && v <= 0x10FFFF)) ==> r == Some(v as char),
        !(v < 0xD800 || (0xE000 <= v && v <= 0x10FFFF)) ==> r is None,
{
    char::from_u32(v)
}

/// Reads the string text of one character at position `i`.
fn unescape_one(buf: &Vec<char>, i: usize) -> (r: Option<(char, usize)>)
    requires
        i < buf@.len(),
    ensures
        match r {
            Some(p) => unescape_at(buf@, i as int) == Some((p.0, p.1 as int)) && p.1 > 0,
            None => unescape_at(buf@, i as int) is None,
        },
{
    let n = buf.len();
    let c = buf[i];
    if c == '\\' {
        if i + 1 >= n {
            return None;
        }
        let e = buf[i + 1];
        if e == '"' {
            Some(('"', 2))
        } else if e == '\\' {
            Some(('\\', 2))
        } else if e == '/' {
            Some(('/', 2))
        } else if e == 'b' {
            Some(('\u{8}', 2))
        } else if e == 'f' {
            Some(('\u{c}', 2))
        } else if e == 'n' {
            Some(('\n', 2))
        } else if e == 'r' {
            Some(('\r', 2))
        } else if e == 't' {
            Some(('\t', 2))
        } else if e == 'u' {
            let v = hex4_at(buf, i + 2);
            if v < 0 || (0xDC00 <= v && v <= 0xDFFF) {
                None
            } else if 0xD800 <= v && v <= 0xDBFF {
                if n - i > 7 && buf[i + 6] == '\\' && buf[i + 7] == 'u' {
                    let w = hex4_at(buf, i + 8);
                    if 0xDC00 <= w && w <= 0xDFFF {
                        let code: u32 = (0x10000 + (v - 0xD800) * 1024 + (w - 0xDC00)) as u32;
                        match char_from(code) {
                            Some(ch) => Some((ch, 12)),
                            None => None,
                        }
                    } else {
                        None
                    }
                } else {
                    None
                }
            } else {
                match char_from(v as u32) {
                    Some(ch) => Some((ch, 6)),
                    None => None,
                }
            }
        } else {
            None
        }
    } else if c == '"' || (c as u32) < 0x20 {
        None
    } else {
        Some((c, 1))
    }
}

/// A scan result with `a` put in front of the characters read.
pub open spec fn prepend(a: Seq<char>, r: Option<(Seq<char>, int)>) -> Option<(Seq<char>, int)> {
    match r {
        Some(q) => Some((a + q.0, q.1)),
        None => None,
    }
}

/// Reads a string literal's contents from position `start`, after its
/// opening quote.
fn scan_string(buf: &Vec<char>, start: usize) -> (r: Option<(String, usize)>)
    ensures
        match r {
            Some(p) => scan_at(buf@, start as int) == Some((p.0@, p.1 as int)) && p.1 <= buf@.len(),
            None => scan_at(buf@, start as int) is None,
        },
{
    let n = buf.len();
    let mut acc = String::new();
    let mut i = start;
    assert(prepend(acc@, scan_at(buf@, i as int)) =~= scan_at(buf@, start as int)) by {
        match scan_at(buf@, start as int) {
            Some(q) => assert(acc@ + q.0 =~= q.0),
            None => {},
        }
    }
    while i < n
        invariant
            n == buf@.len(),
            scan_at(buf@, start as int) == prepend(acc@, scan_at(buf@, i as int)),
        decreases n - i,
    {
        if buf[i] == '"' {
            assert(acc@ + Seq::<char>::empty() =~= acc@);
            return Some((acc, i + 1));
        }
        match unescape_one(buf, i) {
            None => {
                return None;
            },
            Some(p) => {
                let ghost a0 = acc@;
                push_char(&mut acc, p.0);
                proof {
                    match scan_at(buf@, i + p.1) {
                        Some(q) => assert(a0 + (seq![p.0] + q.0) =~= acc@ + q.0),
                        None => {},
                    }
                }
                i = i + p.1;
            },
        }
    }
    None
}

/// Reads the number written in `buf[from..to]`, if it is a canonical `i32`.
fn parse_number(buf: &Vec<char>, from: usize, to: usize) -> (r: Option<i32>)
    requires
        from <= to <= buf@.len(),
    ensures
        r == parse_i32(buf@.subrange(from as int, to as int)),
{
    let ghost t = buf@.subrange(from as int, to as int);
    let neg = from < to && buf[from] == '-';
    let ds = if neg {
        from + 1
    } else {
        from
    };
    let ghost d = buf@.subrange(ds as int, to as int);
    proof {
        if t.len() > 0 {
            assert(t[0] == buf@[from as int]);
        }
        if neg {
            assert(t.drop_first() =~= d);
        } else {
            assert(t =~= d);
        }
    }
    if ds >= to {
        return None;
    }
    if buf[ds] == '0' && to - ds != 1 {
        return None;
    }
    let mut v: i64 = 0;
    let mut j = ds;
    while j < to
        invariant
            ds <= j <= to <= buf@.len(),
            d == buf@.subrange(ds as int, to as int),
            t == buf@.subrange(from as int, to as int),
            neg ==> t.len() > 0 && t[0] == '-' && t.drop_first() == d,
            !neg ==> (t.len() == 0 || t[0] != '-') && t == d,
            all_digits(d.take(j - ds)),
            v == digits_value(d.take(j - ds)),
            0 <= v <= 2147483648,
        decreases to - j,
    {
        let c = buf[j];
        if !('0' <= c && c <= '9') {
            assert(d[j - ds] == c);
            assert(!all_digits(d));
            return None;
        }
        proof {
            assert(d.take(j - ds + 1).drop_last() =~= d.take(j - ds));
            assert(d.take(j - ds + 1).last() == c);
        }
        v = v * 10 + (c as u32 - 48) as i64;
        if v > 2147483648 {
            proof {
                if all_digits(d) {
                    lemma_digits_value_prefix(d, j - ds + 1);
                }
            }
            return None;
        }
        j = j + 1;
    }
    assert(d.take(to - ds) =~= d);
    if neg {
        Some((0 - v) as i32)
    } else if v <= 2147483647 {
        Some(v as i32)
    } else {
        None
    }
}

/// The first position from `i` on that holds no whitespace.
fn skip_ws_at(buf: &Vec<char>, i: usize) -> (r: usize)
    requires
        i <= buf@.len(),
    ensures
        r as int == skip_ws(buf@, i as int),
        i <= r <= buf@.len(),
{
    let mut j = i;
    while j < buf.len() && (buf[j] == ' ' || buf[j] == '\t' || buf[j] == '\n' || buf[j] == '\r')
        invariant
            i <= j <= buf@.len(),
            skip_ws(buf@, i as int) == skip_ws(buf@, j as int),
        decreases buf.len() - j,
    {
        j = j + 1;
    }
    j
}

/// The JSON integer at position `i`, as `read_int` reads it.
fn read_int_at(buf: &Vec<char>, i: usize) -> (r: Option<(i32, usize)>)
    requires
        i <= buf@.len(),
    ensures
        match r {
            Some(p) => read_int(buf@, i as int) == Some((p.0, p.1 as int)) && p.1 <= buf@.len(),
            None => read_int(buf@, i as int) is None,
        },
{
    let ds = if i < buf.len() && buf[i] == '-' {
        i + 1
    } else {
        i
    };
    let mut e = ds;
    while e < buf.len() && '0' <= buf[e] && buf[e] <= '9'
        invariant
            ds <= e <= buf@.len(),
            digit_end(buf@, ds as int) == digit_end(buf@, e as int),
        decreases buf.len() - e,
    {
        e = e + 1;
    }
    match parse_number(buf, i, e) {
        Some(v) => Some((v, e)),
        None => None,
    }
}

/// Whether the four characters at `i` are `a`, `b`, `c`, `d`.
fn word4(buf: &Vec<char>, i: usize, a: char, b: char, c: char, d: char) -> (r: bool)
    requires
        i <= buf@.len(),
    ensures
        r == word_at(buf@, i as int, seq![a, b, c, d]),
{
    if buf.len() - i < 4 {
        return false;
    }
    let r = buf[i] == a && buf[i + 1] == b && buf[i + 2] == c && buf[i + 3] == d;
    let ghost sub = buf@.subrange(i as int, i + 4);
    assert(sub[0] == buf@[i as int] && sub[1] == buf@[i + 1] && sub[2] == buf@[i + 2] && sub[3]
        == buf@[i + 3]);
    if r {
        assert(sub =~= seq![a, b, c, d]);
    }
    r
}

/// Whether the five characters at `i` spell `false`.
fn word_false(buf: &Vec<char>, i: usize) -> (r: bool)
    requires
        i <= buf@.len(),
    ensures
        r == word_at(buf@, i as int, seq!['f', 'a', 'l', 's', 'e']),
{
    if buf.len() - i < 5 {
        return false;
    }
    let r = buf[i] == 'f' && buf[i + 1] == 'a' && buf[i + 2] == 'l' && buf[i + 3] == 's' && buf[i
        + 4] == 'e';
    let ghost sub = buf@.subrange(i as int, i + 5);
    assert(sub[0] == buf@[i as int] && sub[1] == buf@[i + 1] && sub[2] == buf@[i + 2] && sub[3]
        == buf@[i + 3] && sub[4] == buf@[i + 4]);
    if r {
        assert(sub =~= seq!['f', 'a', 'l', 's', 'e']);
    }
    r
}

/// Reads and ignores the JSON value at position `i`, as `skip_value` does.
fn skip_value_at(buf: &Vec<char>, start: usize) -> (r: Option<usize>)
    requires
        start <= buf@.len(),
    ensures
        match r {
            Some(e) => skip_value(buf@, start as int) == Some(e as int) && e <= buf@.len(),
            None => skip_value(buf@, start as int) is None,
        },
{
    let n = buf.len();
    let mut i = start;
    let mut stack: Vec<bool> = Vec::new();
    let mut st: u8 = VALUE;
    loop
        invariant
            n == buf@.len(),
            i <= n,
            skip_value(buf@, start as int) == skip_at(buf@, i as int, stack@, st),
            (st == KEY_OR_CLOSE || st == ITEM_OR_CLOSE) ==> stack@.len() > 0,
        decreases n - i, if st >= MINUS { 1int } else { 0int },
    {
        if st == AFTER && stack.len() == 0 {
            return Some(i);
        }
        if i == n {
            return None;
        }
        let c = buf[i];
        if st >= MINUS {
            if '0' <= c && c <= '9' && st != ZERO {
                if st == MINUS || st == INTEGER {
                    st = if c == '0' && st == MINUS {
                        ZERO
                    } else {
                        INTEGER
                    };
                } else if st == POINT || st == FRACTION {
                    st = FRACTION;
                } else {
                    st = EXPONENT;
                }
                i = i + 1;
            } else if c == '.' && (st == ZERO || st == INTEGER) {
                st = POINT;
                i = i + 1;
            } else if (c == 'e' || c == 'E') && (st == ZERO || st == INTEGER || st == FRACTION) {
                st = EXPONENT_MARK;
                i = i + 1;
            } else if (c == '+' || c == '-') && st == EXPONENT_MARK {
                st = EXPONENT_SIGN;
                i = i + 1;
            } else if st == ZERO || st == INTEGER || st == FRACTION || st == EXPONENT {
                st = AFTER;
            } else {
                return None;
            }
        } else if st == VALUE || st == ITEM_OR_CLOSE {
            if c == ' ' || c == '\t' || c == '\n' || c == '\r' {
                i = i + 1;
            } else if st == ITEM_OR_CLOSE && c == ']' {
                stack.pop();
                st = AFTER;
                i = i + 1;
            } else if c == '{' {
                stack.push(true);
                st = KEY_OR_CLOSE;
                i = i + 1;
            } else if c == '[' {
                stack.push(false);
                st = ITEM_OR_CLOSE;
                i = i + 1;
            } else if c == '"' {
                st = IN_STRING;
                i = i + 1;
            } else if c == '-' {
                st = MINUS;
                i = i + 1;
            } else if c == '0' {
                st = ZERO;
                i = i + 1;
            } else if '1' <= c && c <= '9' {
                st = INTEGER;
                i = i + 1;
            } else if word4(buf, i, 't', 'r', 'u', 'e') || word4(buf, i, 'n', 'u', 'l', 'l') {
                st = AFTER;
                i = i + 4;
            } else if word_false(buf, i) {
                st = AFTER;
                i = i + 5;
            } else {
                return None;
            }
        } else if st == AFTER {
            let top = stack[stack.len() - 1];
            if c == ' ' || c == '\t' || c == '\n' || c == '\r' {
                i = i + 1;
            } else if c == ',' {
                st = if top {
                    KEY
                } else {
                    VALUE
                };
                i = i + 1;
            } else if (c == '}' && top) || (c == ']' && !top) {
                stack.pop();
                i = i + 1;
            } else {
                return None;
            }
        } else if st == KEY_OR_CLOSE || st == KEY {
            if c == ' ' || c == '\t' || c == '\n' || c == '\r' {
                i = i + 1;
            } else if c == '"' {
                st = IN_KEY;
                i = i + 1;
            } else if st == KEY_OR_CLOSE && c == '}' {
                stack.pop();
                st = AFTER;
                i = i + 1;
            } else {
                return None;
            }
        } else if st == COLON {
            if c == ' ' || c == '\t' || c == '\n' || c == '\r' {
                i = i + 1;
            } else if c == ':' {
                st = VALUE;
                i = i + 1;
            } else {
                return None;
            }
        } else if st == IN_STRING || st == IN_KEY {
            if c == '"' {
                st = if st == IN_STRING {
                    AFTER
                } else {
                    COLON
                };
                i = i + 1;
            } else if c == '\\' {
                st = if st == IN_STRING {
                    STRING_ESCAPE
                } else {
                    KEY_ESCAPE
                };
                i = i + 1;
            } else if (c as u32) < 0x20 {
                return None;
            } else {
                i = i + 1;
            }
        } else if st == STRING_ESCAPE || st == KEY_ESCAPE {
            let back = if st == STRING_ESCAPE {
                IN_STRING
            } else {
                IN_KEY
            };
            if c == '"' || c == '\\' || c == '/' || c == 'b' || c == 'f' || c == 'n' || c == 'r'
                || c == 't' {
                st = back;
                i = i + 1;
            } else if c == 'u' && hex4_at(buf, i + 1) >= 0 {
                st = back;
                i = i + 5;
            } else {
                return None;
            }
        } else {
            return None;
        }
    }
}

/// The characters of a string.
fn text_chars(s: &String) -> (r: Vec<char>)
    ensures
        r@ == s@,
{
    chars_of(s.as_str())
}

/// Whether two character sequences are equal.
fn same_chars(a: &Vec<char>, b: &Vec<char>) -> (r: bool)
    ensures
        r == (a@ == b@),
{
    if a.len() != b.len() {
        return false;
    }
    for i in 0..a.len()
        invariant
            a@.len() == b@.len(),
            forall|k: int| 0 <= k < i ==> a@[k] == b@[k],
    {
        if a[i] != b[i] {
            return false;
        }
    }
    assert(a@ =~= b@);
    true
}

/// The id of an optional string.
pub open spec fn text_of(o: Option<String>) -> Option<Seq<char>> {
    match o {
        Some(s) => Some(s@),
        None => None,
    }
}

/// The variant a tag names, as `tag_kind` gives it.
fn tag_kind_of(t: &Vec<char>) -> (r: i32)
    ensures
        r == tag_kind(t@),
{
    if same_chars(t, &vec!['J', 'o', 'i', 'n']) {
        0
    } else if same_chars(t, &vec!['G', 'a', 'm', 'e', 'S', 't', 'a', 't', 'e']) {
        1
    } else if same_chars(t, &vec!['L', 'i', 'n', 'e', 'C', 'l', 'e', 'a', 'r', 'e', 'd']) {
        2
    } else if same_chars(t, &vec!['G', 'a', 'm', 'e', 'O', 'v', 'e', 'r']) {
        3
    } else if same_chars(t, &vec!['P', 'l', 'a', 'y', 'e', 'r', 'L', 'e', 'f', 't']) {
        4
    } else {
        -1
    }
}

/// One member's value at position `v`, as `read_member` reads it.
fn read_member_at(
    buf: &Vec<char>,
    v: usize,
    kind: i32,
    key: &Vec<char>,
    id: Option<String>,
    num: Option<i32>,
) -> (r: Option<(Option<String>, Option<i32>, usize)>)
    requires
        v <= buf@.len(),
    ensures
        match r {
            Some(g) => read_member(buf@, v as int, kind as int, key@, (text_of(id), num, 0)) == Some(
                (text_of(g.0), g.1, g.2 as int),
            ) && g.2 <= buf@.len(),
            None => read_member(buf@, v as int, kind as int, key@, (text_of(id), num, 0)) is None,
        },
{
    if same_chars(key, &vec!['p', 'l', 'a', 'y', 'e', 'r', '_', 'i', 'd']) {
        if id.is_some() || !(v < buf.len() && buf[v] == '"') {
            return None;
        }
        match scan_string(buf, v + 1) {
            Some(q) => Some((Some(q.0), num, q.1)),
            None => None,
        }
    } else if (kind == 1 && same_chars(key, &vec!['s', 'c', 'o', 'r', 'e'])) || (kind == 2
        && same_chars(key, &vec!['c', 'o', 'u', 'n', 't'])) {
        if num.is_some() {
            return None;
        }
        match read_int_at(buf, v) {
            Some(p) => Some((id, Some(p.0), p.1)),
            None => None,
        }
    } else {
        match skip_value_at(buf, v) {
            Some(e) => Some((id, num, e)),
            None => None,
        }
    }
}

/// The members of a fields object from position `start`, as `read_fields`
/// reads them.
fn read_fields_at(buf: &Vec<char>, start: usize, kind: i32) -> (r: Option<(Option<String>, Option<i32>, usize)>)
    requires
        start <= buf@.len(),
    ensures
        match r {
            Some(g) => read_fields(buf@, start as int, kind as int, (None, None, 0), true) == Some(
                (text_of(g.0), g.1, g.2 as int),
            ) && g.2 <= buf@.len(),
            None => read_fields(buf@, start as int, kind as int, (None, None, 0), true) is None,
        },
{
    let n = buf.len();
    let mut i = start;
    let mut id: Option<String> = None;
    let mut num: Option<i32> = None;
    let mut first = true;
    loop
        invariant
            n == buf@.len(),
            i <= n,
            read_fields(buf@, start as int, kind as int, (None, None, 0), true) == read_fields(
                buf@,
                i as int,
                kind as int,
                (text_of(id), num, 0),
                first,
            ),
        decreases n - i,
    {
        if i >= n {
            return None;
        }
        if first && buf[i] == '}' {
            return Some((id, num, i + 1));
        }
        if buf[i] != '"' {
            return None;
        }
        let k = match scan_string(buf, i + 1) {
            Some(k) => k,
            None => {
                return None;
            },
        };
        let c = skip_ws_at(buf, k.1);
        if !(c < n && buf[c] == ':') {
            return None;
        }
        let v = skip_ws_at(buf, c + 1);
        let key = text_chars(&k.0);
        let g = match read_member_at(buf, v, kind, &key, id, num) {
            Some(g) => g,
            None => {
                return None;
            },
        };
        let a = skip_ws_at(buf, g.2);
        if a < n && buf[a] == '}' {
            return Some((g.0, g.1, a + 1));
        }
        if !(a < n && buf[a] == ',') {
            return None;
        }
        let b = skip_ws_at(buf, a + 1);
        if b <= i {
            return None;
        }
        i = b;
        id = g.0;
        num = g.1;
        first = false;
    }
}

/// The fields given as an array from position `i`, as `read_items` reads
/// them.
fn read_items_at(buf: &Vec<char>, i: usize, kind: i32) -> (r: Option<(Option<String>, Option<i32>, usize)>)
    requires
        i <= buf@.len(),
    ensures
        match r {
            Some(g) => read_items(buf@, i as int, kind as int) == Some((text_of(g.0), g.1, g.2 as int))
                && g.2 <= buf@.len(),
            None => read_items(buf@, i as int, kind as int) is None,
        },
{
    let n = buf.len();
    let a = skip_ws_at(buf, i);
    if !(a < n && buf[a] == '"') {
        return None;
    }
    let q = match scan_string(buf, a + 1) {
        Some(q) => q,
        None => {
            return None;
        },
    };
    let b = skip_ws_at(buf, q.1);
    if !(kind == 1 || kind == 2) {
        if b < n && buf[b] == ']' {
            return Some((Some(q.0), None, b + 1));
        }
        return None;
    }
    if !(b < n && buf[b] == ',') {
        return None;
    }
    let c = skip_ws_at(buf, b + 1);
    match read_int_at(buf, c) {
        Some(p) => {
            let d = skip_ws_at(buf, p.1);
            if d < n && buf[d] == ']' {
                Some((Some(q.0), Some(p.0), d + 1))
            } else {
                None
            }
        },
        None => None,
    }
}

/// The message a frame holds, as `read_frame` reads it: `None` for any
/// frame that is not a JSON object of that form.
pub fn decode(frame: &str) -> (r: Option<GameMessage>)
    ensures
        match r {
            Some(m) => read_frame(frame@) == Some(m@),
            None => read_frame(frame@) is None,
        },
{
    let buf = chars_of(frame);
    let n = buf.len();
    let a = skip_ws_at(&buf, 0);
    if !(a < n && buf[a] == '{') {
        return None;
    }
    let b = skip_ws_at(&buf, a + 1);
    if !(b < n && buf[b] == '"') {
        return None;
    }
    let t = match scan_string(&buf, b + 1) {
        Some(t) => t,
        None => {
            return None;
        },
    };
    let kind = tag_kind_of(&text_chars(&t.0));
    let c = skip_ws_at(&buf, t.1);
    if kind < 0 || !(c < n && buf[c] == ':') {
        return None;
    }
    let e = skip_ws_at(&buf, c + 1);
    if e >= n {
        return None;
    }
    let body = if buf[e] == '{' {
        let f0 = skip_ws_at(&buf, e + 1);
        read_fields_at(&buf, f0, kind)
    } else if buf[e] == '[' {
        read_items_at(&buf, e + 1, kind)
    } else {
        None
    };
    let g = match body {
        Some(g) => g,
        None => {
            return None;
        },
    };
    let f = skip_ws_at(&buf, g.2);
    let id = match g.0 {
        Some(id) => id,
        None => {
            return None;
        },
    };
    let number: i32 = match g.1 {
        Some(v) => v,
        None => {
            if kind == 1 || kind == 2 {
                return None;
            }
            0
        },
    };
    if !(f < n && buf[f] == '}' && skip_ws_at(&buf, f + 1) == n) {
        return None;
    }
    if kind == 0 {
        Some(GameMessage::Join { player_id: id })
    } else if kind == 1 {
        Some(GameMessage::GameState { player_id: id, score: number })
    } else if kind == 2 {
        Some(GameMessage::LineCleared { player_id: id, count: number })
    } else if kind == 3 {
        Some(GameMessage::GameOver { player_id: id })
    } else {
        Some(GameMessage::PlayerLeft { player_id: id })
    }
}

} // verus!
