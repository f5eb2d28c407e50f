//! What a parsed hotkey is printed as parses to the same hotkey.
use crate::hotkeys::binding;
use crate::hotkeys::main_key;
use crate::text;
use vstd::prelude::*;

verus! {

/// Whether `c` is a lowercase letter or a digit.
pub open spec fn name_character(c: char) -> bool {
    'a' <= c <= 'z' || main_key::digit(c)
}

/// Whether `s`, from position `i` on, holds letters and digits only, and at no position the first
/// letters of an alias that normalization replaces.
pub open spec fn plain_from(s: Seq<char>, i: int) -> bool
    decreases s.len() - i,
{
    i >= s.len() || {
        &&& name_character(s[i])
        &&& !(i + 1 < s.len() && s[i] == 'c' && s[i + 1] == 'o')
        &&& !(i + 1 < s.len() && s[i] == 'w' && s[i + 1] == 'i')
        &&& !(i + 2 < s.len() && s[i] == 'm' && s[i + 1] == 'e' && s[i + 2] == 't')
        &&& plain_from(s, i + 1)
    }
}

/// The form of a canonical key name.
pub open spec fn plain_name(s: Seq<char>) -> bool {
    s.len() > 0 && plain_from(s, 0)
}

/// Every canonical key name has that form.
proof fn lemma_names_are_plain()
    ensures
        plain_name("mouseleft"@),
        plain_name("mouseright"@),
        plain_name("mousemiddle"@),
        plain_name("scrollup"@),
        plain_name("scrolldown"@),
        plain_name("numpadenter"@),
        plain_name("space"@),
        plain_name("tab"@),
        plain_name("enter"@),
        plain_name("backspace"@),
        plain_name("delete"@),
        plain_name("home"@),
        plain_name("end"@),
        plain_name("pageup"@),
        plain_name("pagedown"@),
        plain_name("up"@),
        plain_name("down"@),
        plain_name("left"@),
        plain_name("right"@),
        plain_name("escape"@),
{
    reveal_with_fuel(plain_from, 12);
    reveal_strlit("mouseleft");
    reveal_strlit("mouseright");
    reveal_strlit("mousemiddle");
    reveal_strlit("scrollup");
    reveal_strlit("scrolldown");
    reveal_strlit("numpadenter");
    reveal_strlit("space");
    reveal_strlit("tab");
    reveal_strlit("enter");
    reveal_strlit("backspace");
    reveal_strlit("delete");
    reveal_strlit("home");
    reveal_strlit("end");
    reveal_strlit("pageup");
    reveal_strlit("pagedown");
    reveal_strlit("up");
    reveal_strlit("down");
    reveal_strlit("left");
    reveal_strlit("right");
    reveal_strlit("escape");
}

/// Looking up the name that a key name stands for gives the same key, and no modifier has such a
/// name.
pub proof fn lemma_named_key_is_canonical(word: Seq<char>)
    requires
        main_key::named_key(word) is Some,
    ensures
        ({
            let (vk, name) = main_key::named_key(word)->0;
            &&& plain_name(name)
            &&& main_key::named_key(name) == Some((vk, name))
            &&& !binding::modifier_word(name)
        }),
{
    lemma_names_are_plain();
    reveal_strlit("mouseleft");
    reveal_strlit("mouse1");
    reveal_strlit("mouseright");
    reveal_strlit("mouse2");
    reveal_strlit("mousemiddle");
    reveal_strlit("mouse3");
    reveal_strlit("scrollup");
    reveal_strlit("wheelup");
    reveal_strlit("scrolldown");
    reveal_strlit("wheeldown");
    reveal_strlit("numpadenter");
    reveal_strlit("numpad");
    reveal_strlit("space");
    reveal_strlit("spacebar");
    reveal_strlit("tab");
    reveal_strlit("enter");
    reveal_strlit("backspace");
    reveal_strlit("delete");
    reveal_strlit("home");
    reveal_strlit("end");
    reveal_strlit("pageup");
    reveal_strlit("pagedown");
    reveal_strlit("up");
    reveal_strlit("down");
    reveal_strlit("left");
    reveal_strlit("right");
    reveal_strlit("esc");
    reveal_strlit("escape");
    reveal_strlit("alt");
    reveal_strlit("option");
    reveal_strlit("ctrl");
    reveal_strlit("control");
    reveal_strlit("shift");
    reveal_strlit("super");
    reveal_strlit("command");
    reveal_strlit("cmd");
    reveal_strlit("meta");
    reveal_strlit("win");
    // Every name differs from every other word here in its first letter, its length or, where
    // both are the same, its second letter.
    assert("mouseleft"@[0] == 'm');
    assert("mouse1"@[0] == 'm');
    assert("mouseright"@[0] == 'm');
    assert("mouse2"@[0] == 'm');
    assert("mousemiddle"@[0] == 'm');
    assert("mouse3"@[0] == 'm');
    assert("scrollup"@[0] == 's');
    assert("wheelup"@[0] == 'w');
    assert("scrolldown"@[0] == 's');
    assert("wheeldown"@[0] == 'w');
    assert("numpadenter"@[0] == 'n');
    assert("numpad"@[0] == 'n');
    assert("space"@[0] == 's');
    assert("spacebar"@[0] == 's');
    assert("tab"@[0] == 't');
    assert("enter"@[0] == 'e');
    assert("backspace"@[0] == 'b');
    assert("delete"@[0] == 'd');
    assert("home"@[0] == 'h');
    assert("end"@[0] == 'e');
    assert("pageup"@[0] == 'p');
    assert("pagedown"@[0] == 'p');
    assert("up"@[0] == 'u');
    assert("down"@[0] == 'd');
    assert("left"@[0] == 'l');
    assert("right"@[0] == 'r');
    assert("esc"@[0] == 'e');
    assert("escape"@[0] == 'e');
    assert("alt"@[0] == 'a');
    assert("option"@[0] == 'o');
    assert("ctrl"@[0] == 'c');
    assert("control"@[0] == 'c');
    assert("shift"@[0] == 's');
    assert("super"@[0] == 's');
    assert("command"@[0] == 'c');
    assert("cmd"@[0] == 'c');
    assert("meta"@[0] == 'm');
    assert("win"@[0] == 'w');
    assert("space"@[1] == 'p');
    assert("shift"@[1] == 'h');
    assert("super"@[1] == 'u');
    if main_key::numpad_digit(word) {
        reveal_with_fuel(plain_from, 8);
        let stem = word.subrange(0, 6);
        assert(word[0] == stem[0] && word[1] == stem[1] && word[2] == stem[2] && word[3] == stem[3]
            && word[4] == stem[4] && word[5] == stem[5]);
        assert(plain_from(word, 0));
    }
}

/// What `plain_from` says of each position.
proof fn lemma_plain_at(s: Seq<char>, from: int, i: int)
    requires
        plain_from(s, from),
        from <= i < s.len(),
    ensures
        name_character(s[i]),
        plain_from(s, i),
    decreases i - from,
{
    if from < i {
        lemma_plain_at(s, from + 1, i);
    }
}

/// A canonical name holds no plus sign.
pub proof fn lemma_plain_name_has_no_plus(s: Seq<char>)
    requires
        plain_name(s),
    ensures
        !s.contains('+'),
{
    assert forall|i: int| 0 <= i < s.len() implies s[i] != '+' by {
        lemma_plain_at(s, 0, i);
    }
}

/// Looking up the name of a key gives the same key, and no modifier has such a name. The name is
/// made of small letters, digits and plus signs; it ends with none of the latter, and without any
/// it has the form of a canonical name.
pub proof fn lemma_plain_key_is_canonical(word: Seq<char>)
    requires
        main_key::plain_key(word) is Some,
    ensures
        ({
            let (vk, name) = main_key::plain_key(word)->0;
            &&& name.len() > 0
            &&& name_character(name[0])
            &&& name_character(name.last())
            &&& forall|i: int|
                0 <= i < name.len() ==> name_character(#[trigger] name[i]) || name[i] == '+'
            &&& !name.contains('+') ==> plain_name(name)
            &&& main_key::plain_key(name) == Some((vk, name))
            &&& !binding::modifier_word(name)
        }),
{
    if main_key::named_key(word) is Some {
        lemma_named_key_is_canonical(word);
        let name = (main_key::named_key(word)->0).1;
        assert forall|i: int| 0 <= i < name.len() implies name_character(#[trigger] name[i]) by {
            lemma_plain_at(name, 0, i);
        }
    } else {
        binding::lemma_modifier_words(word);
        reveal_with_fuel(plain_from, 4);
        if main_key::function_key(word) is Some {
            let number = word.drop_first();
            let digits = main_key::unsigned(number);
            let skipped = word.len() - digits.len();
            reveal_with_fuel(main_key::digits_value, 3);
            assert(main_key::digit(digits[0]));
            assert(main_key::digit(digits[digits.len() - 1]));
            assert(forall|i: int| skipped <= i < word.len() ==> word[i] == digits[i - skipped]);
            assert(forall|i: int| skipped <= i < word.len() ==> name_character(#[trigger] word[i]));
            assert(word[1] == '+' || digits =~= number);
            assert(word.contains(word[1]));
            assert(!word.contains('+') ==> plain_from(word, 0));
        } else {
            assert(plain_from(word, 0));
        }
    }
}

/// The name that a key is given is parsed as that key, in any hotkey, and names no modifier. A name
/// without a plus sign has the form of a canonical name; `f+5` is one with a plus sign.
pub proof fn law_key_names_are_canonical(token: Seq<char>, hotkey: Seq<char>, other: Seq<char>)
    requires
        main_key::main_key(token, hotkey) is Ok,
    ensures
        ({
            let (vk, name) = main_key::main_key(token, hotkey)->Ok_0;
            &&& main_key::main_key(name, other) == Ok::<_, Seq<char>>((vk, name))
            &&& !binding::modifier_word(name)
            &&& !name.contains('+') ==> plain_name(name)
        }),
{
    let word = main_key::key_word(token);
    let (vk, name) = main_key::main_key(token, hotkey)->Ok_0;
    if main_key::plain_key(word) is Some {
        lemma_plain_key_is_canonical(word);
    } else {
        let c = main_key::prefixed_character(word)->0;
        lemma_plain_key_is_canonical(main_key::key_word(seq![c]));
    }
    text::lemma_trimmed_already(name);
    text::lemma_lowercase_already(name);
}

/// Whether normalization has nothing left to do within `s`: letters, digits and plus signs only,
/// and at no position the first letters of an alias.
#[verifier::opaque]
pub open spec fn settled(s: Seq<char>) -> bool {
    forall|i: int|
        0 <= i < s.len() ==> {
            &&& name_character(#[trigger] s[i]) || s[i] == '+'
            &&& !(i + 1 < s.len() && s[i] == 'c' && s[i + 1] == 'o')
            &&& !(i + 1 < s.len() && s[i] == 'w' && s[i + 1] == 'i')
            &&& !(i + 2 < s.len() && s[i] == 'm' && s[i + 1] == 'e' && s[i + 2] == 't')
        }
}

/// A canonical name is settled.
pub proof fn lemma_plain_name_is_settled(s: Seq<char>)
    requires
        plain_name(s),
    ensures
        settled(s),
{
    reveal(settled);
    assert forall|i: int| 0 <= i < s.len() implies plain_from(s, i) && name_character(
        #[trigger] s[i],
    ) by {
        lemma_plain_at(s, 0, i);
    }
}

proof fn lemma_settled_with_word(word: Seq<char>, rest: Seq<char>)
    requires
        plain_name(word),
        settled(rest),
    ensures
        settled(word.push('+') + rest),
{
    reveal(settled);
    lemma_plain_name_is_settled(word);
    let whole = word.push('+') + rest;
    let n = word.len() as int;
    assert(forall|i: int| 0 <= i < n ==> whole[i] == word[i]);
    assert(whole[n] == '+');
    assert(forall|i: int| 0 <= i < rest.len() ==> whole[i + n + 1] == rest[i]);
    assert(forall|i: int| n < i < whole.len() ==> #[trigger] whole[i] == rest[i - n - 1]);
}

/// Normalization keeps a settled text that starts and ends with a letter or digit.
pub proof fn lemma_settled_is_normal(s: Seq<char>)
    requires
        settled(s),
        s.len() > 0,
        name_character(s[0]),
        name_character(s.last()),
    ensures
        binding::normalized(s) == s,
{
    reveal(settled);
    text::lemma_trimmed_already(s);
    text::lemma_lowercase_already(s);
    reveal_strlit("control");
    reveal_strlit("command");
    reveal_strlit("meta");
    reveal_strlit("win");
    assert forall|i: int| !#[trigger] text::occurs_at(s, "control"@, i) by {
        if text::occurs_at(s, "control"@, i) {
            assert(s.subrange(i, i + 7)[0] == s[i] && s.subrange(i, i + 7)[1] == s[i + 1]);
        }
    }
    text::lemma_replaced_absent(s, "control"@, "ctrl"@);
    assert forall|i: int| !#[trigger] text::occurs_at(s, "command"@, i) by {
        if text::occurs_at(s, "command"@, i) {
            assert(s.subrange(i, i + 7)[0] == s[i] && s.subrange(i, i + 7)[1] == s[i + 1]);
        }
    }
    text::lemma_replaced_absent(s, "command"@, "super"@);
    assert forall|i: int| !#[trigger] text::occurs_at(s, "meta"@, i) by {
        if text::occurs_at(s, "meta"@, i) {
            assert(s.subrange(i, i + 4)[0] == s[i] && s.subrange(i, i + 4)[1] == s[i + 1]
                && s.subrange(i, i + 4)[2] == s[i + 2]);
        }
    }
    text::lemma_replaced_absent(s, "meta"@, "super"@);
    assert forall|i: int| !#[trigger] text::occurs_at(s, "win"@, i) by {
        if text::occurs_at(s, "win"@, i) {
            assert(s.subrange(i, i + 3)[0] == s[i] && s.subrange(i, i + 3)[1] == s[i + 1]);
        }
    }
    text::lemma_replaced_absent(s, "win"@, "super"@);
}

/// The words of a binding's canonical text.
pub open spec fn binding_words(b: binding::BindingModel) -> Seq<Seq<char>> {
    (if b.ctrl { seq!["ctrl"@] } else { seq![] }) + (if b.alt { seq!["alt"@] } else { seq![] }) + (
    if b.shift { seq!["shift"@] } else { seq![] }) + (if b.super_key { seq!["super"@] } else {
        seq![]
    }) + seq![b.key_token]
}

/// Whether `front` is nothing, for no word, or one word and a plus sign.
spec fn front_of(front: Seq<char>, words: Seq<Seq<char>>) -> bool {
    ||| front.len() == 0 && words.len() == 0
    ||| words.len() == 1 && plain_name(words[0]) && front == words[0].push('+')
}

/// One word more in front of a text, or none: the text stays settled and gets a piece for it.
proof fn lemma_word_in_front(
    front: Seq<char>,
    front_words: Seq<Seq<char>>,
    rest: Seq<char>,
    words: Seq<Seq<char>>,
)
    requires
        front_of(front, front_words),
        settled(rest),
        text::pieces(rest, '+') == words,
    ensures
        settled(front + rest),
        text::pieces(front + rest, '+') == front_words + words,
{
    if front.len() == 0 {
        assert(front + rest =~= rest);
        assert(front_words + words =~= words);
    } else {
        let word = front_words[0];
        lemma_settled_with_word(word, rest);
        lemma_plain_name_has_no_plus(word);
        text::lemma_pieces_of_one(word, '+');
        text::lemma_pieces_of_two(word, rest, '+');
        assert(front_words =~= seq![word]);
    }
}

/// Five sequences can be joined from either end.
proof fn lemma_regrouped<A>(a: Seq<A>, b: Seq<A>, c: Seq<A>, d: Seq<A>, e: Seq<A>)
    ensures
        a + b + c + d + e == a + (b + (c + (d + e))),
{
    assert(a + b + c + d + e =~= a + (b + (c + (d + e))));
}

/// The same for four words, each there or not, in front of a canonical name.
proof fn lemma_four_in_front(
    a: Seq<char>,
    b: Seq<char>,
    c: Seq<char>,
    d: Seq<char>,
    a_words: Seq<Seq<char>>,
    b_words: Seq<Seq<char>>,
    c_words: Seq<Seq<char>>,
    d_words: Seq<Seq<char>>,
    key: Seq<char>,
)
    requires
        front_of(a, a_words),
        front_of(b, b_words),
        front_of(c, c_words),
        front_of(d, d_words),
        plain_name(key),
    ensures
        settled(a + b + c + d + key),
        text::pieces(a + b + c + d + key, '+') == a_words + b_words + c_words + d_words + seq![key],
{
    lemma_plain_name_is_settled(key);
    lemma_plain_name_has_no_plus(key);
    text::lemma_pieces_of_one(key, '+');
    let words = seq![key];
    lemma_word_in_front(d, d_words, key, words);
    lemma_word_in_front(c, c_words, d + key, d_words + words);
    lemma_word_in_front(b, b_words, c + (d + key), c_words + (d_words + words));
    lemma_word_in_front(a, a_words, b + (c + (d + key)), b_words + (c_words + (d_words + words)));
    lemma_regrouped(a, b, c, d, key);
    lemma_regrouped(a_words, b_words, c_words, d_words, words);
}

/// The modifier names that canonical texts use.
pub proof fn lemma_modifier_names()
    ensures
        plain_name("ctrl"@),
        plain_name("alt"@),
        plain_name("shift"@),
        plain_name("super"@),
        "ctrl+"@ == "ctrl"@.push('+'),
        "alt+"@ == "alt"@.push('+'),
        "shift+"@ == "shift"@.push('+'),
        "super+"@ == "super"@.push('+'),
        ""@ == Seq::<char>::empty(),
{
    reveal_with_fuel(plain_from, 7);
    reveal_strlit("ctrl");
    reveal_strlit("alt");
    reveal_strlit("shift");
    reveal_strlit("super");
    reveal_strlit("ctrl+");
    reveal_strlit("alt+");
    reveal_strlit("shift+");
    reveal_strlit("super+");
    reveal_strlit("");
    assert("ctrl+"@ =~= "ctrl"@.push('+'));
    assert("alt+"@ =~= "alt"@.push('+'));
    assert("shift+"@ =~= "shift"@.push('+'));
    assert("super+"@ =~= "super"@.push('+'));
    assert(""@ =~= Seq::<char>::empty());
}

/// The pieces of a binding's canonical text are its words.
proof fn lemma_formatted_pieces(b: binding::BindingModel)
    requires
        plain_name(b.key_token),
    ensures
        settled(binding::formatted(b)),
        text::pieces(binding::formatted(b), '+') == binding_words(b),
{
    lemma_modifier_names();
    let ctrl = if b.ctrl { "ctrl+"@ } else { ""@ };
    let alt = if b.alt { "alt+"@ } else { ""@ };
    let shift = if b.shift { "shift+"@ } else { ""@ };
    let super_key = if b.super_key { "super+"@ } else { ""@ };
    let ctrl_words = if b.ctrl { seq!["ctrl"@] } else { seq![] };
    let alt_words = if b.alt { seq!["alt"@] } else { seq![] };
    let shift_words = if b.shift { seq!["shift"@] } else { seq![] };
    let super_words = if b.super_key { seq!["super"@] } else { seq![] };
    lemma_four_in_front(
        ctrl,
        alt,
        shift,
        super_key,
        ctrl_words,
        alt_words,
        shift_words,
        super_words,
        b.key_token,
    );
}

/// Reading one token more, or none.
proof fn lemma_read_one_more(
    tokens: Seq<Seq<char>>,
    on: bool,
    token: Seq<char>,
    hotkey: Seq<char>,
)
    requires
        binding::read_tokens(tokens, hotkey) is Ok,
    ensures
        binding::read_tokens(tokens + (if on { seq![token] } else { seq![] }), hotkey) == if on {
            binding::with_token(binding::read_tokens(tokens, hotkey)->Ok_0, token, hotkey)
        } else {
            binding::read_tokens(tokens, hotkey)
        },
{
    if on {
        assert((tokens + seq![token]).drop_last() =~= tokens);
        assert((tokens + seq![token]).last() == token);
    } else {
        assert(tokens + Seq::<Seq<char>>::empty() =~= tokens);
    }
}

/// What the words of a binding say.
proof fn lemma_read_binding_words(b: binding::BindingModel, hotkey: Seq<char>)
    requires
        plain_name(b.key_token),
        !binding::modifier_word(b.key_token),
        main_key::main_key(b.key_token, hotkey) == Ok::<_, Seq<char>>((b.main_vk, b.key_token)),
    ensures
        binding::read_tokens(binding_words(b), hotkey) == Ok::<_, Seq<char>>(
            binding::Partial {
                ctrl: b.ctrl,
                alt: b.alt,
                shift: b.shift,
                super_key: b.super_key,
                main: Some((b.main_vk, b.key_token)),
            },
        ),
{
    lemma_modifier_names();
    binding::lemma_modifier_words("ctrl"@);
    binding::lemma_modifier_words("alt"@);
    binding::lemma_modifier_words("shift"@);
    binding::lemma_modifier_words("super"@);
    let none = Seq::<Seq<char>>::empty();
    let ctrl = if b.ctrl { seq!["ctrl"@] } else { seq![] };
    let alt = if b.alt { seq!["alt"@] } else { seq![] };
    let shift = if b.shift { seq!["shift"@] } else { seq![] };
    let super_key = if b.super_key { seq!["super"@] } else { seq![] };
    assert(none + ctrl =~= ctrl);
    lemma_read_one_more(none, b.ctrl, "ctrl"@, hotkey);
    lemma_read_one_more(ctrl, b.alt, "alt"@, hotkey);
    lemma_read_one_more(ctrl + alt, b.shift, "shift"@, hotkey);
    lemma_read_one_more(ctrl + alt + shift, b.super_key, "super"@, hotkey);
    lemma_read_one_more(ctrl + alt + shift + super_key, true, b.key_token, hotkey);
}

/// The tokens of a binding's canonical text are its words.
proof fn lemma_formatted_tokens(b: binding::BindingModel)
    requires
        plain_name(b.key_token),
    ensures
        binding::normalized(binding::formatted(b)) == binding::formatted(b),
        binding::hotkey_tokens(binding::formatted(b)) == binding_words(b),
{
    let whole = binding::formatted(b);
    let words = binding_words(b);
    lemma_formatted_pieces(b);
    lemma_modifier_names();
    lemma_plain_at(b.key_token, 0, b.key_token.len() - 1);
    lemma_plain_at("ctrl"@, 0, 0);
    lemma_plain_at("alt"@, 0, 0);
    lemma_plain_at("shift"@, 0, 0);
    lemma_plain_at("super"@, 0, 0);
    lemma_plain_at(b.key_token, 0, 0);
    assert(whole.last() == b.key_token.last());
    lemma_settled_is_normal(whole);
    assert forall|i: int| 0 <= i < words.len() implies plain_name(#[trigger] words[i]) by {}
    assert forall|i: int| 0 <= i < words.len() implies text::trimmed(#[trigger] words[i])
        == words[i] by {
        let word = words[i];
        lemma_plain_at(word, 0, 0);
        lemma_plain_at(word, 0, word.len() - 1);
        text::lemma_trimmed_already(word);
    }
    assert(binding::hotkey_tokens(whole) =~= words);
}

/// The main key that tokens name is what one of them stands for.
proof fn lemma_main_key_of_a_token(tokens: Seq<Seq<char>>, hotkey: Seq<char>) -> (token: Seq<char>)
    requires
        binding::read_tokens(tokens, hotkey) matches Ok(all) && all.main is Some,
    ensures
        main_key::main_key(token, hotkey) == Ok::<_, Seq<char>>(
            (binding::read_tokens(tokens, hotkey)->Ok_0).main->0,
        ),
    decreases tokens.len(),
{
    let before = binding::read_tokens(tokens.drop_last(), hotkey)->Ok_0;
    if before.main is Some {
        lemma_main_key_of_a_token(tokens.drop_last(), hotkey)
    } else {
        tokens.last()
    }
}

/// Printing a parsed hotkey and parsing the text again gives the same binding, and the text is in
/// normal form. The name of a parsed key never holds a plus sign, as `parse_hotkey_binding` says.
pub proof fn law_parse_inverts_format(hotkey: Seq<char>)
    requires
        binding::parsed_hotkey(hotkey) matches Ok(b) && !b.key_token.contains('+'),
    ensures
        ({
            let b = binding::parsed_hotkey(hotkey)->Ok_0;
            let printed = binding::formatted(b);
            &&& binding::parsed_hotkey(printed) == Ok::<_, Seq<char>>(b)
            &&& binding::normalized(printed) == printed
        }),
{
    let b = binding::parsed_hotkey(hotkey)->Ok_0;
    let printed = binding::formatted(b);
    let token = lemma_main_key_of_a_token(binding::hotkey_tokens(hotkey), hotkey);
    law_key_names_are_canonical(token, hotkey, printed);
    lemma_formatted_tokens(b);
    lemma_read_binding_words(b, printed);
}

} // verus!
