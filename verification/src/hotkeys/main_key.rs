//! The main key of a hotkey: key names, function keys, letters and digits.
use crate::hotkeys::accepted;
use crate::hotkeys::round_trip;
use crate::text;
use crate::text::{has_at, same_text};
use vstd::prelude::*;
use vstd::string::*;

verus! {

/// The code of the pseudo key "wheel turned up".
pub const VK_SCROLL_UP_PSEUDO: i32 = -1;

/// The code of the pseudo key "wheel turned down".
pub const VK_SCROLL_DOWN_PSEUDO: i32 = -2;

/// The code of the pseudo key "numpad enter".
pub const VK_NUMPAD_ENTER_PSEUDO: i32 = -3;

/// Whether `c` is a decimal digit.
pub open spec fn digit(c: char) -> bool {
    '0' <= c <= '9'
}

/// Whether `word` is `numpad` with one digit behind it.
pub open spec fn numpad_digit(word: Seq<char>) -> bool {
    word.len() == 7 && text::occurs_at(word, "numpad"@, 0) && digit(word[6])
}

/// The key code and canonical name that a key name stands for.
pub open spec fn named_key(word: Seq<char>) -> Option<(i32, Seq<char>)> {
    if word == "mouseleft"@ || word == "mouse1"@ {
        Some((1, "mouseleft"@))
    } else if word == "mouseright"@ || word == "mouse2"@ {
        Some((2, "mouseright"@))
    } else if word == "mousemiddle"@ || word == "mouse3"@ {
        Some((4, "mousemiddle"@))
    } else if word == "scrollup"@ || word == "wheelup"@ {
        Some((VK_SCROLL_UP_PSEUDO, "scrollup"@))
    } else if word == "scrolldown"@ || word == "wheeldown"@ {
        Some((VK_SCROLL_DOWN_PSEUDO, "scrolldown"@))
    } else if word == "numpadenter"@ {
        Some((VK_NUMPAD_ENTER_PSEUDO, "numpadenter"@))
    } else if numpad_digit(word) {
        Some(((0x60 + (word[6] as int - '0' as int)) as i32, word))
    } else if word == "space"@ || word == "spacebar"@ {
        Some((0x20, "space"@))
    } else if word == "tab"@ {
        Some((0x09, "tab"@))
    } else if word == "enter"@ {
        Some((0x0D, "enter"@))
    } else if word == "backspace"@ {
        Some((0x08, "backspace"@))
    } else if word == "delete"@ {
        Some((0x2E, "delete"@))
    } else if word == "home"@ {
        Some((0x23, "home"@))
    } else if word == "end"@ {
        Some((0x22, "end"@))
    } else if word == "pageup"@ {
        Some((0x21, "pageup"@))
    } else if word == "pagedown"@ {
        Some((0x22, "pagedown"@))
    } else if word == "up"@ {
        Some((0x26, "up"@))
    } else if word == "down"@ {
        Some((0x28, "down"@))
    } else if word == "left"@ {
        Some((0x25, "left"@))
    } else if word == "right"@ {
        Some((0x27, "right"@))
    } else if word == "esc"@ || word == "escape"@ {
        Some((0x1B, "escape"@))
    } else {
        None
    }
}

/// The number that a non-empty sequence of decimal digits writes.
pub open spec fn digits_value(s: Seq<char>) -> int
    decreases s.len(),
{
    if s.len() == 0 {
        0
    } else {
        10 * digits_value(s.drop_last()) + (s.last() as int - '0' as int)
    }
}

/// Whether `s` starts with a sign.
pub open spec fn signed(s: Seq<char>) -> bool {
    s.len() > 0 && (s[0] == '+' || s[0] == '-')
}

/// `s` without its sign.
pub open spec fn unsigned(s: Seq<char>) -> Seq<char> {
    if signed(s) {
        s.drop_first()
    } else {
        s
    }
}

/// Whether `s` is one or more decimal digits.
pub open spec fn all_digits(s: Seq<char>) -> bool {
    s.len() > 0 && (forall|i: int| 0 <= i < s.len() ==> digit(#[trigger] s[i]))
}

/// The number that `s` writes: digits, behind at most one sign.
pub open spec fn decimal(s: Seq<char>) -> Option<int> {
    if !all_digits(unsigned(s)) {
        None
    } else if s[0] == '-' {
        Some(-digits_value(unsigned(s)))
    } else {
        Some(digits_value(unsigned(s)))
    }
}

/// The key that `f` and a number from 1 to 12 stand for; the name keeps the number as written.
pub open spec fn function_key(word: Seq<char>) -> Option<(i32, Seq<char>)> {
    if 1 <= word.len() <= 3 && word[0] == 'f' {
        match decimal(word.drop_first()) {
            Some(number) if 1 <= number <= 12 => Some(((0x70 + (number - 1)) as i32, word)),
            _ => None,
        }
    } else {
        None
    }
}

/// The key that a single lowercase letter or digit stands for; its code is the uppercase letter's
/// or the digit's ASCII code.
pub open spec fn character_key(word: Seq<char>) -> Option<(i32, Seq<char>)> {
    if word.len() == 1 && 'a' <= word[0] <= 'z' {
        Some(((word[0] as int - 32) as i32, word))
    } else if word.len() == 1 && digit(word[0]) {
        Some((word[0] as i32, word))
    } else {
        None
    }
}

/// The key that a lowercase word stands for by itself.
pub open spec fn plain_key(word: Seq<char>) -> Option<(i32, Seq<char>)> {
    if named_key(word) is Some {
        named_key(word)
    } else if function_key(word) is Some {
        function_key(word)
    } else {
        character_key(word)
    }
}

/// The single ASCII character behind the prefix `key` or `digit`.
pub open spec fn prefixed_character(word: Seq<char>) -> Option<char> {
    if text::occurs_at(word, "key"@, 0) && word.len() == "key"@.len() + 1 && text::ascii(
        word.last(),
    ) {
        Some(word.last())
    } else if text::occurs_at(word, "digit"@, 0) && word.len() == "digit"@.len() + 1 && text::ascii(
        word.last(),
    ) {
        Some(word.last())
    } else {
        None
    }
}

/// The message for a token that names no key.
pub open spec fn unrecognized(token: Seq<char>, hotkey: Seq<char>) -> Seq<char> {
    "Couldn't recognize '"@ + token + "' as a valid key in '"@ + hotkey + "'"@
}

/// The word that a token is looked up by.
pub open spec fn key_word(token: Seq<char>) -> Seq<char> {
    text::lowercase(text::trimmed(token))
}

/// What a main key token of a hotkey stands for: the key, or the message that refuses it. A letter
/// or digit may be written behind `key` or `digit`; it is then looked up by itself.
pub open spec fn main_key(token: Seq<char>, hotkey: Seq<char>) -> Result<
    (i32, Seq<char>),
    Seq<char>,
> {
    let word = key_word(token);
    match (plain_key(word), prefixed_character(word)) {
        (Some(key), _) => Ok(key),
        (None, Some(c)) => match plain_key(key_word(seq![c])) {
            Some(key) => Ok(key),
            None => Err(unrecognized(seq![c], hotkey)),
        },
        (None, None) => Err(unrecognized(token, hotkey)),
    }
}

/// A key in the form that contracts speak of.
pub open spec fn key_view(key: Option<(i32, String)>) -> Option<(i32, Seq<char>)> {
    match key {
        Some((vk, name)) => Some((vk, name@)),
        None => None,
    }
}

/// The key with the given code and name.
fn named(vk: i32, name: &str) -> (r: Option<(i32, String)>)
    ensures
        key_view(r) == Some((vk, name@)),
{
    Some((vk, name.to_owned()))
}

/// Looks up a key name.
fn find_named_key(word: &str) -> (r: Option<(i32, String)>)
    ensures
        key_view(r) == named_key(word@),
{
    if same_text(word, "mouseleft") || same_text(word, "mouse1") {
        named(1, "mouseleft")
    } else if same_text(word, "mouseright") || same_text(word, "mouse2") {
        named(2, "mouseright")
    } else if same_text(word, "mousemiddle") || same_text(word, "mouse3") {
        named(4, "mousemiddle")
    } else if same_text(word, "scrollup") || same_text(word, "wheelup") {
        named(VK_SCROLL_UP_PSEUDO, "scrollup")
    } else if same_text(word, "scrolldown") || same_text(word, "wheeldown") {
        named(VK_SCROLL_DOWN_PSEUDO, "scrolldown")
    } else if same_text(word, "numpadenter") {
        named(VK_NUMPAD_ENTER_PSEUDO, "numpadenter")
    } else if word.unicode_len() == 7 && has_at(word, "numpad", 0) && '0' <= word.get_char(6)
        && word.get_char(6) <= '9' {
        named(0x60 + (word.get_char(6) as u32 - '0' as u32) as i32, word)
    } else if same_text(word, "space") || same_text(word, "spacebar") {
        named(0x20, "space")
    } else if same_text(word, "tab") {
        named(0x09, "tab")
    } else if same_text(word, "enter") {
        named(0x0D, "enter")
    } else if same_text(word, "backspace") {
        named(0x08, "backspace")
    } else if same_text(word, "delete") {
        named(0x2E, "delete")
    } else if same_text(word, "home") {
        named(0x23, "home")
    } else if same_text(word, "end") {
        named(0x22, "end")
    } else if same_text(word, "pageup") {
        named(0x21, "pageup")
    } else if same_text(word, "pagedown") {
        named(0x22, "pagedown")
    } else if same_text(word, "up") {
        named(0x26, "up")
    } else if same_text(word, "down") {
        named(0x28, "down")
    } else if same_text(word, "left") {
        named(0x25, "left")
    } else if same_text(word, "right") {
        named(0x27, "right")
    } else if same_text(word, "esc") || same_text(word, "escape") {
        named(0x1B, "escape")
    } else {
        None
    }
}

/// The number that a text of at most three characters writes.
fn read_decimal(s: &str) -> (r: Option<i32>)
    requires
        s@.len() <= 3,
    ensures
        match r {
            Some(number) => decimal(s@) == Some(number as int),
            None => decimal(s@) is None,
        },
{
    let len: usize = s.unicode_len();
    if len == 0 {
        return None;
    }
    let first: char = s.get_char(0);
    let start: usize = if first == '+' || first == '-' {
        1
    } else {
        0
    };
    let ghost digits = unsigned(s@);
    if start == len {
        return None;
    }
    let mut value: i32 = 0;
    let mut i: usize = start;
    assert(digits.take(0) =~= Seq::<char>::empty());
    while i < len
        invariant
            start <= i <= len == s@.len() <= 3,
            start <= 1,
            digits.len() == len - start,
            forall|j: int| 0 <= j < digits.len() ==> digits[j] == s@[j + start],
            forall|j: int| 0 <= j < i - start ==> digit(#[trigger] digits[j]),
            value == digits_value(digits.take(i - start)),
            digits == unsigned(s@),
            i - start == 0 ==> value == 0,
            i - start == 1 ==> 0 <= value <= 9,
            i - start == 2 ==> 0 <= value <= 99,
            i - start == 3 ==> 0 <= value <= 999,
        decreases len - i,
    {
        let c: char = s.get_char(i);
        assert(c == digits[i - start]);
        if !('0' <= c && c <= '9') {
            assert(!digit(digits[i - start]));
            return None;
        }
        proof {
            assert(digits.take(i - start + 1).drop_last() =~= digits.take(i - start));
            assert(digits.take(i - start + 1).last() == c);
        }
        value = 10 * value + (c as u32 - '0' as u32) as i32;
        i = i + 1;
    }
    assert(digits.take(len - start) =~= digits);
    if first == '-' {
        Some(-value)
    } else {
        Some(value)
    }
}

/// Looks up a function key.
fn find_function_key(word: &str) -> (r: Option<(i32, String)>)
    ensures
        key_view(r) == function_key(word@),
{
    let len: usize = word.unicode_len();
    if len < 1 || len > 3 || word.get_char(0) != 'f' {
        return None;
    }
    let rest: &str = word.substring_char(1, len);
    assert(rest@ =~= word@.drop_first());
    match read_decimal(rest) {
        Some(number) => if 1 <= number && number <= 12 {
            named(0x70 + (number - 1), word)
        } else {
            None
        },
        None => None,
    }
}

/// Looks up a letter or a digit.
fn find_character_key(word: &str) -> (r: Option<(i32, String)>)
    ensures
        key_view(r) == character_key(word@),
{
    if word.unicode_len() != 1 {
        return None;
    }
    let c: char = word.get_char(0);
    if 'a' <= c && c <= 'z' {
        named((c as u32 - 32) as i32, word)
    } else if '0' <= c && c <= '9' {
        named(c as u32 as i32, word)
    } else {
        None
    }
}

/// Looks up a lowercase word.
fn find_plain_key(word: &str) -> (r: Option<(i32, String)>)
    ensures
        key_view(r) == plain_key(word@),
{
    let by_name: Option<(i32, String)> = find_named_key(word);
    if by_name.is_some() {
        return by_name;
    }
    let by_number: Option<(i32, String)> = find_function_key(word);
    if by_number.is_some() {
        return by_number;
    }
    find_character_key(word)
}

/// The single ASCII character behind `prefix`, as a text.
fn character_behind<'a>(word: &'a str, prefix: &str) -> (r: Option<&'a str>)
    ensures
        r is Some <==> text::occurs_at(word@, prefix@, 0) && word@.len() == prefix@.len() + 1
            && text::ascii(word@.last()),
        r matches Some(c) ==> c@ == seq![word@.last()],
{
    let len: usize = word.unicode_len();
    if len == 0 || len - 1 != prefix.unicode_len() || !has_at(word, prefix, 0) || word.get_char(
        len - 1,
    ) > '\u{7f}' {
        return None;
    }
    let last: &str = word.substring_char(len - 1, len);
    assert(last@ =~= seq![word@.last()]);
    Some(last)
}

/// The message for a token that names no key.
fn unrecognized_message(token: &str, hotkey: &str) -> (r: String)
    ensures
        r@ == unrecognized(token@, hotkey@),
{
    let mut message: String = "Couldn't recognize '".to_owned();
    message.append(token);
    message.append("' as a valid key in '");
    message.append(hotkey);
    message.append("'");
    message
}

/// A parsed key in the form that contracts speak of.
pub open spec fn key_result_view(key: Result<(i32, String), String>) -> Result<
    (i32, Seq<char>),
    Seq<char>,
> {
    match key {
        Ok((vk, name)) => Ok((vk, name@)),
        Err(message) => Err(message@),
    }
}

/// The word that a token is looked up by.
fn lookup_word(token: &str) -> (r: String)
    ensures
        r@ == key_word(token@),
        text::all_lower(r@),
        !token@.contains('+') ==> !r@.contains('+'),
{
    let trimmed: &str = text::trim(token);
    proof {
        if !token@.contains('+') {
            text::lemma_trimmed_keeps_out(token@, '+');
        }
    }
    text::to_lowercase(trimmed)
}

/// The name of a key holds a plus sign only if the word that it was looked up by does.
proof fn lemma_name_adds_no_plus(word: Seq<char>)
    ensures
        !word.contains('+') ==> (plain_key(word) matches Some((_, name)) ==> !name.contains('+')),
{
    if named_key(word) is Some {
        round_trip::lemma_named_key_is_canonical(word);
        round_trip::lemma_plain_name_has_no_plus((named_key(word)->0).1);
    }
}

/// Parses the main key of `original_hotkey`: the key's code and canonical name, or the message
/// that refuses it. The token is looked up in lowercase, and what is accepted is ASCII in that form.
/// The name holds a `+` only if the token does.
pub fn parse_hotkey_main_key(token: &str, original_hotkey: &str) -> (r: Result<
    (i32, String),
    String,
>)
    ensures
        key_result_view(r) == main_key(token@, original_hotkey@),
        text::all_lower(key_word(token@)),
        r is Ok ==> text::all_ascii(key_word(token@)),
        !token@.contains('+') ==> (r matches Ok((_, name)) ==> !name@.contains('+')),
{
    let lower: String = lookup_word(token);
    let word: &str = lower.as_str();
    proof {
        lemma_name_adds_no_plus(word@);
        if plain_key(word@) is Some || prefixed_character(word@) is Some {
            accepted::lemma_key_words_are_ascii(word@);
        }
    }
    if let Some(key) = find_plain_key(word) {
        return Ok(key);
    }
    let letter: Option<&str> = match character_behind(word, "key") {
        Some(c) => Some(c),
        None => character_behind(word, "digit"),
    };
    match letter {
        Some(c) => {
            let inner: String = lookup_word(c);
            proof {
                lemma_name_adds_no_plus(inner@);
                assert(word@.contains(word@[word@.len() - 1]));
            }
            match find_plain_key(inner.as_str()) {
                Some(key) => Ok(key),
                None => Err(unrecognized_message(c, original_hotkey)),
            }
        },
        None => Err(unrecognized_message(token, original_hotkey)),
    }
}

} // verus!
