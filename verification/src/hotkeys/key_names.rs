//! What key names mean: the code of each key, which words name one, and that codes tell keys apart.
use crate::hotkeys::main_key;
use crate::text;
use vstd::prelude::*;

verus! {

/// The lengths and the first letters of the words with a fixed meaning, and the last ones of those
/// that are not told apart by them.
proof fn lemma_word_letters()
    ensures
        "mouseleft"@.len() == 9 && "mouseleft"@[0] == 'm' && "mouseleft"@[1] == 'o',
        "mouse1"@.len() == 6 && "mouse1"@[0] == 'm' && "mouse1"@[1] == 'o',
        "mouseright"@.len() == 10 && "mouseright"@[0] == 'm' && "mouseright"@[1] == 'o',
        "mouse2"@.len() == 6 && "mouse2"@[0] == 'm' && "mouse2"@[1] == 'o',
        "mousemiddle"@.len() == 11 && "mousemiddle"@[0] == 'm' && "mousemiddle"@[1] == 'o',
        "mouse3"@.len() == 6 && "mouse3"@[0] == 'm' && "mouse3"@[1] == 'o',
        "scrollup"@.len() == 8 && "scrollup"@[0] == 's' && "scrollup"@[1] == 'c',
        "wheelup"@.len() == 7 && "wheelup"@[0] == 'w' && "wheelup"@[1] == 'h',
        "scrolldown"@.len() == 10 && "scrolldown"@[0] == 's' && "scrolldown"@[1] == 'c',
        "wheeldown"@.len() == 9 && "wheeldown"@[0] == 'w' && "wheeldown"@[1] == 'h',
        "numpadenter"@.len() == 11 && "numpadenter"@[0] == 'n' && "numpadenter"@[1] == 'u',
        "space"@.len() == 5 && "space"@[0] == 's' && "space"@[1] == 'p',
        "spacebar"@.len() == 8 && "spacebar"@[0] == 's' && "spacebar"@[1] == 'p',
        "tab"@.len() == 3 && "tab"@[0] == 't' && "tab"@[1] == 'a',
        "enter"@.len() == 5 && "enter"@[0] == 'e' && "enter"@[1] == 'n',
        "backspace"@.len() == 9 && "backspace"@[0] == 'b' && "backspace"@[1] == 'a',
        "delete"@.len() == 6 && "delete"@[0] == 'd' && "delete"@[1] == 'e',
        "home"@.len() == 4 && "home"@[0] == 'h' && "home"@[1] == 'o',
        "end"@.len() == 3 && "end"@[0] == 'e' && "end"@[1] == 'n',
        "pageup"@.len() == 6 && "pageup"@[0] == 'p' && "pageup"@[1] == 'a',
        "pagedown"@.len() == 8 && "pagedown"@[0] == 'p' && "pagedown"@[1] == 'a',
        "up"@.len() == 2 && "up"@[0] == 'u' && "up"@[1] == 'p',
        "down"@.len() == 4 && "down"@[0] == 'd' && "down"@[1] == 'o',
        "left"@.len() == 4 && "left"@[0] == 'l' && "left"@[1] == 'e',
        "right"@.len() == 5 && "right"@[0] == 'r' && "right"@[1] == 'i',
        "esc"@.len() == 3 && "esc"@[0] == 'e' && "esc"@[1] == 's',
        "escape"@.len() == 6 && "escape"@[0] == 'e' && "escape"@[1] == 's',
        "mouse1"@[5] == '1' && "mouse2"@[5] == '2' && "mouse3"@[5] == '3',
        "numpad"@ == seq!['n', 'u', 'm', 'p', 'a', 'd'],
{
    reveal_strlit("mouseleft");
    reveal_strlit("mouse1");
    reveal_strlit("mouseright");
    reveal_strlit("mouse2");
    reveal_strlit("mousemiddle");
    reveal_strlit("mouse3");
    reveal_strlit("scrollup");
    reveal_strlit("wheelup");
    reveal_strlit("scrolldown");
    reveal_strlit("wheeldown");
    reveal_strlit("numpadenter");
    reveal_strlit("space");
    reveal_strlit("spacebar");
    reveal_strlit("tab");
    reveal_strlit("enter");
    reveal_strlit("backspace");
    reveal_strlit("delete");
    reveal_strlit("home");
    reveal_strlit("end");
    reveal_strlit("pageup");
    reveal_strlit("pagedown");
    reveal_strlit("up");
    reveal_strlit("down");
    reveal_strlit("left");
    reveal_strlit("right");
    reveal_strlit("esc");
    reveal_strlit("escape");
    reveal_strlit("numpad");
    assert("numpad"@ =~= seq!['n', 'u', 'm', 'p', 'a', 'd']);
}

/// The keys that the words with a fixed meaning name.
proof fn lemma_named_keys()
    ensures
        main_key::named_key("mouseleft"@) == Some((1i32, "mouseleft"@)),
        main_key::named_key("mouse1"@) == Some((1i32, "mouseleft"@)),
        main_key::named_key("mouseright"@) == Some((2i32, "mouseright"@)),
        main_key::named_key("mouse2"@) == Some((2i32, "mouseright"@)),
        main_key::named_key("mousemiddle"@) == Some((4i32, "mousemiddle"@)),
        main_key::named_key("mouse3"@) == Some((4i32, "mousemiddle"@)),
        main_key::named_key("scrollup"@) == Some(((-1) as i32, "scrollup"@)),
        main_key::named_key("wheelup"@) == Some(((-1) as i32, "scrollup"@)),
        main_key::named_key("scrolldown"@) == Some(((-2) as i32, "scrolldown"@)),
        main_key::named_key("wheeldown"@) == Some(((-2) as i32, "scrolldown"@)),
        main_key::named_key("numpadenter"@) == Some(((-3) as i32, "numpadenter"@)),
        main_key::named_key("space"@) == Some((0x20i32, "space"@)),
        main_key::named_key("spacebar"@) == Some((0x20i32, "space"@)),
        main_key::named_key("tab"@) == Some((0x09i32, "tab"@)),
        main_key::named_key("enter"@) == Some((0x0Di32, "enter"@)),
        main_key::named_key("backspace"@) == Some((0x08i32, "backspace"@)),
        main_key::named_key("delete"@) == Some((0x2Ei32, "delete"@)),
        main_key::named_key("home"@) == Some((0x23i32, "home"@)),
        main_key::named_key("end"@) == Some((0x22i32, "end"@)),
        main_key::named_key("pageup"@) == Some((0x21i32, "pageup"@)),
        main_key::named_key("pagedown"@) == Some((0x22i32, "pagedown"@)),
        main_key::named_key("up"@) == Some((0x26i32, "up"@)),
        main_key::named_key("down"@) == Some((0x28i32, "down"@)),
        main_key::named_key("left"@) == Some((0x25i32, "left"@)),
        main_key::named_key("right"@) == Some((0x27i32, "right"@)),
        main_key::named_key("esc"@) == Some((0x1Bi32, "escape"@)),
        main_key::named_key("escape"@) == Some((0x1Bi32, "escape"@)),
{
    lemma_word_letters();
}

/// No word with a fixed meaning is shorter than two letters or starts with `f`, `k` or `di`.
proof fn lemma_named_words(word: Seq<char>)
    requires
        main_key::named_key(word) is Some,
    ensures
        word.len() >= 2,
        word[0] != 'f' && word[0] != 'k',
        word[0] == 'd' ==> word[1] != 'i',
{
    lemma_word_letters();
    if main_key::numpad_digit(word) {
        assert(word.subrange(0, 6)[0] == word[0]);
    }
}

/// Each key name with a fixed meaning stands for one key, in capital or small letters and with white
/// space around it or not. Where a key has two names, one of them is canonical.
pub proof fn law_named_keys(token: Seq<char>, hotkey: Seq<char>)
    ensures
        ({
            let w = text::lowercase(text::trimmed(token));
            w == "mouseleft"@ || w == "mouse1"@ ==> main_key::main_key(token, hotkey) == Ok::<_, Seq<char>>(
                (1i32, "mouseleft"@),
            )
        }),
        ({
            let w = text::lowercase(text::trimmed(token));
            w == "mouseright"@ || w == "mouse2"@ ==> main_key::main_key(token, hotkey) == Ok::<_, Seq<char>>(
                (2i32, "mouseright"@),
            )
        }),
        ({
            let w = text::lowercase(text::trimmed(token));
            w == "mousemiddle"@ || w == "mouse3"@ ==> main_key::main_key(token, hotkey) == Ok::<_, Seq<char>>(
                (4i32, "mousemiddle"@),
            )
        }),
        ({
            let w = text::lowercase(text::trimmed(token));
            w == "scrollup"@ || w == "wheelup"@ ==> main_key::main_key(token, hotkey) == Ok::<_, Seq<char>>(
                ((-1) as i32, "scrollup"@),
            )
        }),
        ({
            let w = text::lowercase(text::trimmed(token));
            w == "scrolldown"@ || w == "wheeldown"@ ==> main_key::main_key(token, hotkey) == Ok::<_, Seq<char>>(
                ((-2) as i32, "scrolldown"@),
            )
        }),
        ({
            let w = text::lowercase(text::trimmed(token));
            w == "numpadenter"@ ==> main_key::main_key(token, hotkey) == Ok::<_, Seq<char>>(
                ((-3) as i32, "numpadenter"@),
            )
        }),
        ({
            let w = text::lowercase(text::trimmed(token));
            w == "space"@ || w == "spacebar"@ ==> main_key::main_key(token, hotkey) == Ok::<_, Seq<char>>(
                (0x20i32, "space"@),
            )
        }),
        ({
            let w = text::lowercase(text::trimmed(token));
            w == "tab"@ ==> main_key::main_key(token, hotkey) == Ok::<_, Seq<char>>(
                (0x09i32, "tab"@),
            )
        }),
        ({
            let w = text::lowercase(text::trimmed(token));
            w == "enter"@ ==> main_key::main_key(token, hotkey) == Ok::<_, Seq<char>>(
                (0x0Di32, "enter"@),
            )
        }),
        ({
            let w = text::lowercase(text::trimmed(token));
            w == "backspace"@ ==> main_key::main_key(token, hotkey) == Ok::<_, Seq<char>>(
                (0x08i32, "backspace"@),
            )
        }),
        ({
            let w = text::lowercase(text::trimmed(token));
            w == "delete"@ ==> main_key::main_key(token, hotkey) == Ok::<_, Seq<char>>(
                (0x2Ei32, "delete"@),
            )
        }),
        ({
            let w = text::lowercase(text::trimmed(token));
            w == "home"@ ==> main_key::main_key(token, hotkey) == Ok::<_, Seq<char>>(
                (0x23i32, "home"@),
            )
        }),
        ({
            let w = text::lowercase(text::trimmed(token));
            w == "end"@ ==> main_key::main_key(token, hotkey) == Ok::<_, Seq<char>>(
                (0x22i32, "end"@),
            )
        }),
        ({
            let w = text::lowercase(text::trimmed(token));
            w == "pageup"@ ==> main_key::main_key(token, hotkey) == Ok::<_, Seq<char>>(
                (0x21i32, "pageup"@),
            )
        }),
        ({
            let w = text::lowercase(text::trimmed(token));
            w == "pagedown"@ ==> main_key::main_key(token, hotkey) == Ok::<_, Seq<char>>(
                (0x22i32, "pagedown"@),
            )
        }),
        ({
            let w = text::lowercase(text::trimmed(token));
            w == "up"@ ==> main_key::main_key(token, hotkey) == Ok::<_, Seq<char>>(
                (0x26i32, "up"@),
            )
        }),
        ({
            let w = text::lowercase(text::trimmed(token));
            w == "down"@ ==> main_key::main_key(token, hotkey) == Ok::<_, Seq<char>>(
                (0x28i32, "down"@),
            )
        }),
        ({
            let w = text::lowercase(text::trimmed(token));
            w == "left"@ ==> main_key::main_key(token, hotkey) == Ok::<_, Seq<char>>(
                (0x25i32, "left"@),
            )
        }),
        ({
            let w = text::lowercase(text::trimmed(token));
            w == "right"@ ==> main_key::main_key(token, hotkey) == Ok::<_, Seq<char>>(
                (0x27i32, "right"@),
            )
        }),
        ({
            let w = text::lowercase(text::trimmed(token));
            w == "esc"@ || w == "escape"@ ==> main_key::main_key(token, hotkey) == Ok::<_, Seq<char>>(
                (0x1Bi32, "escape"@),
            )
        }),
{
    lemma_named_keys();
}

/// The capital form of an ASCII letter, and any other character itself.
pub open spec fn capital(c: char) -> int {
    if 'a' <= c <= 'z' {
        c as int - 32
    } else {
        c as int
    }
}

/// A letter or digit, alone or behind `key` or `digit`, is the key whose code is the ASCII code of
/// its capital form. Its name is the small letter or the digit.
pub proof fn law_letters_and_digits(c: char, hotkey: Seq<char>)
    requires
        'a' <= c <= 'z' || 'A' <= c <= 'Z' || '0' <= c <= '9',
    ensures
        main_key::main_key(seq![c], hotkey) matches Ok((vk, name)) && vk == capital(c) && name.len()
            == 1 && capital(name[0]) == capital(c) && !('A' <= name[0] <= 'Z'),
        main_key::main_key("key"@ + seq![c], hotkey) == main_key::main_key(seq![c], hotkey),
        main_key::main_key("digit"@ + seq![c], hotkey) == main_key::main_key(seq![c], hotkey),
{
    let small = text::ascii_lower(c);
    let one = seq![c];
    lemma_key_word_of_ascii(one, seq![small]);
    if main_key::named_key(seq![small]) is Some {
        lemma_named_words(seq![small]);
    }
    let key = main_key::plain_key(seq![small]);
    if main_key::function_key(seq![small]) is Some {
        assert(seq![small].drop_first().len() == 0);
    }
    assert(main_key::main_key(one, hotkey) == Ok::<_, Seq<char>>((capital(c) as i32, seq![small])));
    reveal_strlit("key");
    reveal_strlit("digit");
    assert("key"@ =~= seq!['k', 'e', 'y']);
    assert("digit"@ =~= seq!['d', 'i', 'g', 'i', 't']);
    lemma_key_word_of_ascii(seq![small], seq![small]);
    lemma_prefixed("key"@, c);
    lemma_prefixed("digit"@, c);
}

/// The lookup word of an ASCII token that neither starts nor ends with white space.
proof fn lemma_key_word_of_ascii(token: Seq<char>, word: Seq<char>)
    requires
        token.len() > 0,
        text::all_ascii(token),
        !text::white_space(token[0]),
        !text::white_space(token.last()),
        word.len() == token.len(),
        forall|i: int| 0 <= i < token.len() ==> word[i] == text::ascii_lower(#[trigger] token[i]),
    ensures
        main_key::key_word(token) == word,
{
    text::lemma_trimmed_already(token);
    assert(text::ascii_lowercase(token) =~= word);
}

/// A letter or digit behind one of the prefixes is looked up by itself.
proof fn lemma_prefixed(prefix: Seq<char>, c: char)
    requires
        prefix == "key"@ || prefix == "digit"@,
        'a' <= c <= 'z' || 'A' <= c <= 'Z' || '0' <= c <= '9',
    ensures
        main_key::plain_key(main_key::key_word(prefix + seq![c])) is None,
        main_key::prefixed_character(main_key::key_word(prefix + seq![c])) == Some(
            text::ascii_lower(c),
        ),
{
    reveal_strlit("key");
    reveal_strlit("digit");
    assert("key"@ =~= seq!['k', 'e', 'y']);
    assert("digit"@ =~= seq!['d', 'i', 'g', 'i', 't']);
    let token = prefix + seq![c];
    let word = prefix + seq![text::ascii_lower(c)];
    assert(token.last() == c);
    lemma_key_word_of_ascii(token, word);
    if main_key::named_key(word) is Some {
        lemma_named_words(word);
    }
    assert(word.subrange(0, prefix.len() as int) =~= prefix);
    assert(word.last() == text::ascii_lower(c));
    if prefix == "digit"@ {
        assert(word.subrange(0, 3)[0] == 'd');
        assert("key"@[0] == 'k');
    }
}

/// `numpad` and a digit are the key whose code lies as far behind 0x60 as the digit lies behind 0.
pub proof fn law_numpad_digits(token: Seq<char>, d: char, hotkey: Seq<char>)
    requires
        '0' <= d <= '9',
        text::lowercase(text::trimmed(token)) == "numpad"@ + seq![d],
    ensures
        main_key::main_key(token, hotkey) == Ok::<_, Seq<char>>(
            ((0x60 + (d as int - '0' as int)) as i32, "numpad"@ + seq![d]),
        ),
{
    let word = "numpad"@ + seq![d];
    lemma_word_letters();
    assert(word.subrange(0, 6) =~= "numpad"@);
    assert(word[0] == 'n' && word.len() == 7 && word[6] == d);
    assert(main_key::numpad_digit(word));
    assert(main_key::named_key(word) == Some(
        ((0x60 + (d as int - '0' as int)) as i32, word),
    ));
}

/// `f` and a number from 1 to 12 are the function key with that number, whose code is that much
/// above 0x6F. The number may be written with a zero or a plus sign in front where that leaves it at
/// most two characters; the name keeps it as written.
pub proof fn law_function_keys(token: Seq<char>, d: char, hotkey: Seq<char>)
    requires
        '0' <= d <= '9',
    ensures
        ({
            let w = text::lowercase(text::trimmed(token));
            let number = d as int - '0' as int;
            &&& w == seq!['f', d] && number > 0 ==> main_key::main_key(token, hotkey) == Ok::<
                _,
                Seq<char>,
            >(((0x6F + number) as i32, w))
            &&& (w == seq!['f', '0', d] || w == seq!['f', '+', d]) && number > 0
                ==> main_key::main_key(token, hotkey) == Ok::<_, Seq<char>>(
                ((0x6F + number) as i32, w),
            )
            &&& w == seq!['f', '1', d] && number <= 2 ==> main_key::main_key(token, hotkey)
                == Ok::<_, Seq<char>>(((0x79 + number) as i32, w))
        }),
{
    let w = text::lowercase(text::trimmed(token));
    if main_key::named_key(w) is Some {
        lemma_named_words(w);
    }
    reveal_with_fuel(main_key::digits_value, 3);
    let number = w.drop_first();
    let none = Seq::<char>::empty();
    if w == seq!['f', d] {
        assert(number =~= seq![d]);
        assert(main_key::unsigned(number) =~= seq![d]);
        assert(seq![d].drop_last() =~= none);
    } else if w == seq!['f', '+', d] {
        assert(number =~= seq!['+', d]);
        assert(main_key::unsigned(number) =~= seq![d]);
        assert(seq![d].drop_last() =~= none);
    } else if w == seq!['f', '0', d] {
        assert(number =~= seq!['0', d]);
        assert(main_key::unsigned(number) =~= seq!['0', d]);
        assert(seq!['0', d].drop_last() =~= seq!['0']);
        assert(seq!['0'].drop_last() =~= none);
    } else if w == seq!['f', '1', d] {
        assert(number =~= seq!['1', d]);
        assert(main_key::unsigned(number) =~= seq!['1', d]);
        assert(seq!['1', d].drop_last() =~= seq!['1']);
        assert(seq!['1'].drop_last() =~= none);
    }
}

/// No other word names a key.
pub proof fn law_no_other_word_names_a_key(token: Seq<char>, hotkey: Seq<char>)
    requires
        main_key::main_key(token, hotkey) is Ok,
    ensures
        ({
            let w = text::lowercase(text::trimmed(token));
            let last = w.last();
            let letter_or_digit = 'a' <= last <= 'z' || 'A' <= last <= 'Z' || '0' <= last <= '9';
            ||| {
                ||| w == "mouseleft"@ || w == "mouse1"@
                ||| w == "mouseright"@ || w == "mouse2"@
                ||| w == "mousemiddle"@ || w == "mouse3"@
                ||| w == "scrollup"@ || w == "wheelup"@
                ||| w == "scrolldown"@ || w == "wheeldown"@
                ||| w == "numpadenter"@
                ||| w == "space"@ || w == "spacebar"@
                ||| w == "tab"@
                ||| w == "enter"@
                ||| w == "backspace"@
                ||| w == "delete"@
                ||| w == "home"@
                ||| w == "end"@
                ||| w == "pageup"@
                ||| w == "pagedown"@
                ||| w == "up"@
                ||| w == "down"@
                ||| w == "left"@
                ||| w == "right"@
                ||| w == "esc"@ || w == "escape"@
            }
            ||| w.len() == 7 && w.subrange(0, 6) == "numpad"@ && '0' <= last <= '9'
            ||| w.len() == 1 && letter_or_digit
            ||| w.len() == 4 && w.subrange(0, 3) == "key"@ && letter_or_digit
            ||| w.len() == 6 && w.subrange(0, 5) == "digit"@ && letter_or_digit
            ||| w.len() == 2 && w[0] == 'f' && '1' <= last <= '9'
            ||| w.len() == 3 && w[0] == 'f' && (w[1] == '0' || w[1] == '+') && '1' <= last <= '9'
            ||| w.len() == 3 && w[0] == 'f' && w[1] == '1' && '0' <= last <= '2'
        }),
{
    let w = text::lowercase(text::trimmed(token));
    reveal_strlit("key");
    reveal_strlit("digit");
    reveal_strlit("numpad");
    assert("key"@.len() == 3 && "digit"@.len() == 5 && "numpad"@.len() == 6);
    if main_key::plain_key(w) is Some {
        if main_key::named_key(w) is None && main_key::function_key(w) is Some {
            lemma_function_words(w);
        }
    } else {
        let c = main_key::prefixed_character(w)->0;
        let inner = main_key::key_word(seq![c]);
        lemma_single_key(c);
    }
}

/// The words that name function keys.
proof fn lemma_function_words(w: Seq<char>)
    requires
        main_key::function_key(w) is Some,
    ensures
        ({
            ||| w.len() == 2 && w[0] == 'f' && '1' <= w[1] <= '9'
            ||| w.len() == 3 && w[0] == 'f' && (w[1] == '0' || w[1] == '+') && '1' <= w[2] <= '9'
            ||| w.len() == 3 && w[0] == 'f' && w[1] == '1' && '0' <= w[2] <= '2'
        }),
{
    let number = w.drop_first();
    let digits = main_key::unsigned(number);
    reveal_with_fuel(main_key::digits_value, 3);
    assert(main_key::digit(digits[0]));
    if w.len() == 2 {
        assert(number.len() == 1);
        assert(digits =~= number);
        assert(digits.drop_last().len() == 0);
        assert(number[0] == w[1]);
    } else {
        assert(number[0] == w[1] && number[1] == w[2]);
        if main_key::signed(number) {
            assert(digits.len() == 1 && digits[0] == w[2]);
            assert(digits.drop_last().len() == 0);
        } else {
            assert(digits.drop_last().len() == 1 && digits.drop_last()[0] == w[1]);
            assert(digits.drop_last().drop_last().len() == 0);
            assert(main_key::digit(digits[1]));
        }
    }
}

/// A single ASCII character that names a key is a letter or a digit.
proof fn lemma_single_key(c: char)
    requires
        text::ascii(c),
        main_key::plain_key(main_key::key_word(seq![c])) is Some,
    ensures
        'a' <= c <= 'z' || 'A' <= c <= 'Z' || '0' <= c <= '9',
{
    let one = seq![c];
    let none = Seq::<char>::empty();
    let word = main_key::key_word(one);
    if text::white_space(c) {
        assert(one.drop_first() =~= none);
        assert(text::trimmed_start(none) =~= none);
        assert(text::trimmed_start(one) =~= none);
        assert(text::trimmed(one) =~= none);
        assert(text::ascii_lowercase(none) =~= none);
        assert(word =~= none);
        if main_key::named_key(word) is Some {
            lemma_named_words(word);
        }
    } else {
        lemma_key_word_of_ascii(one, seq![text::ascii_lower(c)]);
        if main_key::named_key(word) is Some {
            lemma_named_words(word);
        }
        if main_key::function_key(word) is Some {
            lemma_function_words(word);
        }
    }
}

/// An empty word names no key.
pub proof fn lemma_no_key_without_a_name(token: Seq<char>, hotkey: Seq<char>)
    requires
        text::lowercase(text::trimmed(token)).len() == 0,
    ensures
        main_key::main_key(token, hotkey) is Err,
{
    if main_key::main_key(token, hotkey) is Ok {
        lemma_word_letters();
        law_no_other_word_names_a_key(token, hotkey);
    }
}

/// Codes tell keys apart: two tokens with one code have one name, or are `end` and `pagedown`, or
/// are two spellings of one function key.
pub proof fn law_codes_tell_keys_apart(
    a: Seq<char>,
    b: Seq<char>,
    a_hotkey: Seq<char>,
    b_hotkey: Seq<char>,
)
    requires
        main_key::main_key(a, a_hotkey) is Ok,
        main_key::main_key(b, b_hotkey) is Ok,
    ensures
        ({
            let (vk, name) = main_key::main_key(a, a_hotkey)->Ok_0;
            let (other_vk, other_name) = main_key::main_key(b, b_hotkey)->Ok_0;
            vk == other_vk ==> {
                ||| name == other_name
                ||| name == "end"@ && other_name == "pagedown"@
                ||| name == "pagedown"@ && other_name == "end"@
                ||| 0x70 <= vk <= 0x7B && name[0] == 'f' && other_name[0] == 'f'
            }
        }),
{
    let word = lemma_plain_word(a, a_hotkey);
    let other = lemma_plain_word(b, b_hotkey);
    if (main_key::plain_key(word)->0).0 == (main_key::plain_key(other)->0).0 {
        lemma_codes_of_words(word, other);
    }
}

/// The word that an accepted token is found by in the end.
proof fn lemma_plain_word(token: Seq<char>, hotkey: Seq<char>) -> (word: Seq<char>)
    requires
        main_key::main_key(token, hotkey) is Ok,
    ensures
        main_key::plain_key(word) == Some(main_key::main_key(token, hotkey)->Ok_0),
{
    let word = main_key::key_word(token);
    if main_key::plain_key(word) is Some {
        word
    } else {
        main_key::key_word(seq![main_key::prefixed_character(word)->0])
    }
}

proof fn lemma_codes_of_words(a: Seq<char>, b: Seq<char>)
    requires
        main_key::plain_key(a) is Some,
        main_key::plain_key(b) is Some,
        (main_key::plain_key(a)->0).0 == (main_key::plain_key(b)->0).0,
    ensures
        ({
            let (vk, name) = main_key::plain_key(a)->0;
            let other_name = (main_key::plain_key(b)->0).1;
            ||| name == other_name
            ||| name == "end"@ && other_name == "pagedown"@
            ||| name == "pagedown"@ && other_name == "end"@
            ||| 0x70 <= vk <= 0x7B && name[0] == 'f' && other_name[0] == 'f'
        }),
{
    lemma_code_range(a);
    lemma_code_range(b);
    if main_key::numpad_digit(a) && main_key::numpad_digit(b) {
        reveal_strlit("numpad");
        assert("numpad"@.len() == 6);
        assert(a.subrange(0, 6) == b.subrange(0, 6));
        assert forall|i: int| 0 <= i < 7 implies a[i] == b[i] by {
            if i < 6 {
                assert(a.subrange(0, 6)[i] == a[i] && b.subrange(0, 6)[i] == b[i]);
            }
        }
        assert(a =~= b);
    } else if a.len() == 1 && b.len() == 1 {
        if main_key::named_key(a) is Some {
            lemma_named_words(a);
        }
        if main_key::named_key(b) is Some {
            lemma_named_words(b);
        }
        assert(a =~= b);
    }
}

/// Where the codes of the different kinds of keys lie.
proof fn lemma_code_range(word: Seq<char>)
    requires
        main_key::plain_key(word) is Some,
    ensures
        ({
            let vk = (main_key::plain_key(word)->0).0;
            let named = main_key::named_key(word) is Some;
            &&& 0x60 <= vk <= 0x69 ==> main_key::numpad_digit(word)
            &&& main_key::numpad_digit(word) ==> vk == 0x60 + (word[6] as int - '0' as int)
            &&& named && !main_key::numpad_digit(word) ==> vk <= 0x2E
            &&& !named && main_key::function_key(word) is Some ==> 0x70 <= vk <= 0x7B
            &&& !named && main_key::function_key(word) is None ==> word.len() == 1 && (0x30 <= vk
                <= 0x39 || 0x41 <= vk <= 0x5A)
        }),
{
    if main_key::numpad_digit(word) {
        lemma_word_letters();
        assert(word.subrange(0, 6)[0] == word[0]);
    }
}

/// The message for a word that names no key.
pub open spec fn unknown_key(word: Seq<char>, hotkey: Seq<char>) -> Seq<char> {
    "Couldn't recognize '"@ + word + "' as a valid key in '"@ + hotkey + "'"@
}

/// The word that a refused token is refused by, in any hotkey.
pub proof fn lemma_unknown_word(
    token: Seq<char>,
    hotkey: Seq<char>,
    other: Seq<char>,
) -> (word: Seq<char>)
    requires
        main_key::main_key(token, hotkey) is Err,
    ensures
        main_key::main_key(token, hotkey) == Err::<(i32, Seq<char>), _>(unknown_key(word, hotkey)),
        main_key::main_key(token, other) == Err::<(i32, Seq<char>), _>(unknown_key(word, other)),
{
    match main_key::prefixed_character(main_key::key_word(token)) {
        Some(c) => seq![c],
        None => token,
    }
}

/// A token that names no key is refused by name, and so is a character behind a prefix; the message
/// names the hotkey too.
pub proof fn law_refused_keys_are_named(token: Seq<char>, hotkey: Seq<char>)
    ensures
        main_key::main_key(token, hotkey) matches Err(message) ==> {
            let w = text::lowercase(text::trimmed(token));
            let prefixed = (w.len() == 4 && w.subrange(0, 3) == "key"@ || w.len() == 6
                && w.subrange(0, 5) == "digit"@) && w.last() <= '\u{7f}';
            let named = if prefixed {
                seq![w.last()]
            } else {
                token
            };
            message == "Couldn't recognize '"@ + named + "' as a valid key in '"@ + hotkey + "'"@
        },
{
    reveal_strlit("key");
    reveal_strlit("digit");
    assert("key"@.len() == 3 && "digit"@.len() == 5);
}

} // verus!
