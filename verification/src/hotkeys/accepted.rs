//! The characters of accepted hotkey texts: beyond ASCII there is nothing but white space in their
//! normal forms.
use crate::hotkeys::binding;
use crate::hotkeys::main_key;
use crate::text;
use vstd::prelude::*;

verus! {

/// Whether every character of `s` is ASCII or white space.
pub open spec fn ascii_or_white_space(s: Seq<char>) -> bool {
    forall|i: int| 0 <= i < s.len() ==> text::ascii(#[trigger] s[i]) || text::white_space(s[i])
}

/// The words with a fixed meaning are ASCII.
proof fn lemma_named_words_are_ascii(word: Seq<char>)
    requires
        main_key::named_key(word) is Some,
        !main_key::numpad_digit(word),
    ensures
        text::all_ascii(word),
{
    reveal_strlit("mouseleft");
    reveal_strlit("mouse1");
    reveal_strlit("mouseright");
    reveal_strlit("mouse2");
    reveal_strlit("mousemiddle");
    reveal_strlit("mouse3");
    reveal_strlit("scrollup");
    reveal_strlit("wheelup");
    reveal_strlit("scrolldown");
    reveal_strlit("wheeldown");
    reveal_strlit("numpadenter");
    reveal_strlit("space");
    reveal_strlit("spacebar");
    reveal_strlit("tab");
    reveal_strlit("enter");
    reveal_strlit("backspace");
    reveal_strlit("delete");
    reveal_strlit("home");
    reveal_strlit("end");
    reveal_strlit("pageup");
    reveal_strlit("pagedown");
    reveal_strlit("up");
    reveal_strlit("down");
    reveal_strlit("left");
    reveal_strlit("right");
    reveal_strlit("esc");
    reveal_strlit("escape");
    assert("mouseleft"@ =~= seq!['m', 'o', 'u', 's', 'e', 'l', 'e', 'f', 't']);
    assert("mouse1"@ =~= seq!['m', 'o', 'u', 's', 'e', '1']);
    assert("mouseright"@ =~= seq!['m', 'o', 'u', 's', 'e', 'r', 'i', 'g', 'h', 't']);
    assert("mouse2"@ =~= seq!['m', 'o', 'u', 's', 'e', '2']);
    assert("mousemiddle"@ =~= seq!['m', 'o', 'u', 's', 'e', 'm', 'i', 'd', 'd', 'l', 'e']);
    assert("mouse3"@ =~= seq!['m', 'o', 'u', 's', 'e', '3']);
    assert("scrollup"@ =~= seq!['s', 'c', 'r', 'o', 'l', 'l', 'u', 'p']);
    assert("wheelup"@ =~= seq!['w', 'h', 'e', 'e', 'l', 'u', 'p']);
    assert("scrolldown"@ =~= seq!['s', 'c', 'r', 'o', 'l', 'l', 'd', 'o', 'w', 'n']);
    assert("wheeldown"@ =~= seq!['w', 'h', 'e', 'e', 'l', 'd', 'o', 'w', 'n']);
    assert("numpadenter"@ =~= seq!['n', 'u', 'm', 'p', 'a', 'd', 'e', 'n', 't', 'e', 'r']);
    assert("space"@ =~= seq!['s', 'p', 'a', 'c', 'e']);
    assert("spacebar"@ =~= seq!['s', 'p', 'a', 'c', 'e', 'b', 'a', 'r']);
    assert("tab"@ =~= seq!['t', 'a', 'b']);
    assert("enter"@ =~= seq!['e', 'n', 't', 'e', 'r']);
    assert("backspace"@ =~= seq!['b', 'a', 'c', 'k', 's', 'p', 'a', 'c', 'e']);
    assert("delete"@ =~= seq!['d', 'e', 'l', 'e', 't', 'e']);
    assert("home"@ =~= seq!['h', 'o', 'm', 'e']);
    assert("end"@ =~= seq!['e', 'n', 'd']);
    assert("pageup"@ =~= seq!['p', 'a', 'g', 'e', 'u', 'p']);
    assert("pagedown"@ =~= seq!['p', 'a', 'g', 'e', 'd', 'o', 'w', 'n']);
    assert("up"@ =~= seq!['u', 'p']);
    assert("down"@ =~= seq!['d', 'o', 'w', 'n']);
    assert("left"@ =~= seq!['l', 'e', 'f', 't']);
    assert("right"@ =~= seq!['r', 'i', 'g', 'h', 't']);
    assert("esc"@ =~= seq!['e', 's', 'c']);
    assert("escape"@ =~= seq!['e', 's', 'c', 'a', 'p', 'e']);
}

/// Every word that stands for a key is ASCII.
pub proof fn lemma_key_words_are_ascii(word: Seq<char>)
    requires
        main_key::plain_key(word) is Some || main_key::prefixed_character(word) is Some,
    ensures
        text::all_ascii(word),
{
    if main_key::plain_key(word) is None {
        reveal_strlit("key");
        reveal_strlit("digit");
        assert("key"@ =~= seq!['k', 'e', 'y']);
        assert("digit"@ =~= seq!['d', 'i', 'g', 'i', 't']);
        let n = word.len() - 1;
        let stem = word.subrange(0, n);
        assert(forall|i: int| 0 <= i < n ==> #[trigger] word[i] == stem[i]);
    } else if main_key::numpad_digit(word) {
        reveal_strlit("numpad");
        assert("numpad"@ =~= seq!['n', 'u', 'm', 'p', 'a', 'd']);
        let stem = word.subrange(0, 6);
        assert(forall|i: int| 0 <= i < 6 ==> #[trigger] word[i] == stem[i]);
    } else if main_key::named_key(word) is Some {
        lemma_named_words_are_ascii(word);
    } else if main_key::function_key(word) is Some {
        let number = word.drop_first();
        let digits = main_key::unsigned(number);
        let skipped = word.len() - digits.len();
        assert(forall|i: int| skipped <= i < word.len() ==> #[trigger] word[i] == digits[i - skipped]);
        assert(skipped == 1 || word[1] == number[0]);
    }
}

/// An accepted token in lowercase is ASCII.
proof fn lemma_accepted_token_is_ascii(token: Seq<char>, hotkey: Seq<char>)
    requires
        text::all_lower(token),
        text::trimmed(token) == token,
        binding::modifier_word(token) || main_key::main_key(token, hotkey) is Ok,
    ensures
        text::all_ascii(token),
{
    if binding::modifier_word(token) {
        binding::lemma_modifier_words(token);
    } else {
        text::lemma_lower_already(token);
        lemma_key_words_are_ascii(token);
    }
}

/// The normal form of an accepted hotkey text holds nothing beyond ASCII but white space, if it is
/// in lowercase.
pub proof fn lemma_accepted_normal_form(hotkey: Seq<char>)
    requires
        text::all_lower(binding::normalized(hotkey)),
        binding::parsed_hotkey(hotkey) is Ok,
    ensures
        ascii_or_white_space(binding::normalized(hotkey)),
{
    let n = binding::normalized(hotkey);
    let pieces = text::pieces(n, '+');
    let tokens = binding::hotkey_tokens(hotkey);
    binding::law_accepted_hotkeys(hotkey);
    assert forall|i: int| 0 <= i < n.len() implies text::ascii(#[trigger] n[i])
        || text::white_space(n[i]) by {
        let c = n[i];
        if c != '+' && !text::white_space(c) {
            assert(n.contains(c));
            text::lemma_characters_of_pieces(n, '+', c);
            let k = choose|k: int| 0 <= k < pieces.len() && (#[trigger] pieces[k]).contains(c);
            let token = tokens[k];
            assert(token == text::trimmed(pieces[k]));
            text::lemma_trimmed_keeps_in(pieces[k], c);
            text::lemma_trimmed_twice(pieces[k]);
            text::lemma_trimmed(pieces[k]);
            text::lemma_pieces_lack_separator(n, '+');
            assert forall|j: int| 0 <= j < token.len() implies #[trigger] text::lower_char(token[j])
                == seq![token[j]] && token[j] != '\u{3a3}' by {
                assert(pieces[k].contains(token[j]));
                assert(token[j] != '+');
                text::lemma_characters_of_pieces(n, '+', token[j]);
                let l = choose|l: int| 0 <= l < n.len() && n[l] == token[j];
                assert(text::lower_char(n[l]) == seq![n[l]]);
            }
            lemma_accepted_token_is_ascii(token, hotkey);
            let m = choose|m: int| 0 <= m < token.len() && token[m] == c;
            assert(text::ascii(token[m]));
        }
    }
}

} // verus!
