//! The grammar of hotkey texts: what a part more makes of a text.
use crate::hotkeys::binding;
use crate::hotkeys::key_names;
use crate::hotkeys::main_key;
use crate::hotkeys::normal_form;
use crate::hotkeys::parts;
use crate::hotkeys::round_trip;
use crate::text;
use vstd::prelude::*;

verus! {

/// Replacing a word by another in the word itself.
proof fn lemma_replaced_whole(from: Seq<char>, to: Seq<char>)
    requires
        from.len() > 0,
    ensures
        text::replaced(from, from, to) == to,
{
    assert(from.subrange(0, from.len() as int) =~= from);
    assert(text::occurs_at(from, from, 0));
    let rest = from.skip(from.len() as int);
    assert(text::replaced(rest, from, to) =~= Seq::<char>::empty());
    assert(to + text::replaced(rest, from, to) =~= to);
}

/// A word does not occur where its first letter does not, nor in a shorter text.
proof fn lemma_replaced_none(s: Seq<char>, from: Seq<char>, to: Seq<char>)
    requires
        from.len() > s.len() || (from.len() > 0 && !s.contains(from[0])),
    ensures
        text::replaced(s, from, to) == s,
{
    assert forall|i: int| !#[trigger] text::occurs_at(s, from, i) by {
        if text::occurs_at(s, from, i) {
            assert(s.subrange(i, i + from.len())[0] == s[i]);
        }
    }
    text::lemma_replaced_absent(s, from, to);
}

/// The normal forms of the words that name modifiers.
proof fn lemma_normal_modifiers()
    ensures
        binding::normalized("ctrl"@) == "ctrl"@,
        binding::normalized("control"@) == "ctrl"@,
        binding::normalized("alt"@) == "alt"@,
        binding::normalized("option"@) == "option"@,
        binding::normalized("shift"@) == "shift"@,
        binding::normalized("super"@) == "super"@,
        binding::normalized("command"@) == "super"@,
        binding::normalized("cmd"@) == "cmd"@,
        binding::normalized("meta"@) == "super"@,
        binding::normalized("win"@) == "super"@,
{
    reveal_strlit("ctrl");
    reveal_strlit("control");
    reveal_strlit("alt");
    reveal_strlit("option");
    reveal_strlit("shift");
    reveal_strlit("super");
    reveal_strlit("command");
    reveal_strlit("cmd");
    reveal_strlit("meta");
    reveal_strlit("win");
    assert("ctrl"@ =~= seq!['c', 't', 'r', 'l']);
    assert("control"@ =~= seq!['c', 'o', 'n', 't', 'r', 'o', 'l']);
    assert("alt"@ =~= seq!['a', 'l', 't']);
    assert("option"@ =~= seq!['o', 'p', 't', 'i', 'o', 'n']);
    assert("shift"@ =~= seq!['s', 'h', 'i', 'f', 't']);
    assert("super"@ =~= seq!['s', 'u', 'p', 'e', 'r']);
    assert("command"@ =~= seq!['c', 'o', 'm', 'm', 'a', 'n', 'd']);
    assert("cmd"@ =~= seq!['c', 'm', 'd']);
    assert("meta"@ =~= seq!['m', 'e', 't', 'a']);
    assert("win"@ =~= seq!['w', 'i', 'n']);
    reveal_with_fuel(round_trip::plain_from, 8);
    round_trip::lemma_plain_name_is_settled("ctrl"@);
    round_trip::lemma_settled_is_normal("ctrl"@);
    round_trip::lemma_plain_name_is_settled("alt"@);
    round_trip::lemma_settled_is_normal("alt"@);
    round_trip::lemma_plain_name_is_settled("option"@);
    round_trip::lemma_settled_is_normal("option"@);
    round_trip::lemma_plain_name_is_settled("shift"@);
    round_trip::lemma_settled_is_normal("shift"@);
    round_trip::lemma_plain_name_is_settled("super"@);
    round_trip::lemma_settled_is_normal("super"@);
    round_trip::lemma_plain_name_is_settled("cmd"@);
    round_trip::lemma_settled_is_normal("cmd"@);
    text::lemma_trimmed_already("control"@);
    text::lemma_lowercase_already("control"@);
    text::lemma_trimmed_already("command"@);
    text::lemma_lowercase_already("command"@);
    text::lemma_trimmed_already("meta"@);
    text::lemma_lowercase_already("meta"@);
    text::lemma_trimmed_already("win"@);
    text::lemma_lowercase_already("win"@);
    lemma_replaced_whole("control"@, "ctrl"@);
    lemma_replaced_none("ctrl"@, "command"@, "super"@);
    lemma_replaced_none("ctrl"@, "meta"@, "super"@);
    lemma_replaced_none("ctrl"@, "win"@, "super"@);
    assert forall|i: int| !#[trigger] text::occurs_at("command"@, "control"@, i) by {
        if text::occurs_at("command"@, "control"@, i) {
            assert("command"@.subrange(i, i + 7)[2] == "command"@[2]);
        }
    }
    text::lemma_replaced_absent("command"@, "control"@, "ctrl"@);
    lemma_replaced_whole("command"@, "super"@);
    lemma_replaced_none("super"@, "meta"@, "super"@);
    lemma_replaced_none("super"@, "win"@, "super"@);
    lemma_replaced_none("meta"@, "control"@, "ctrl"@);
    lemma_replaced_none("meta"@, "command"@, "super"@);
    lemma_replaced_whole("meta"@, "super"@);
    lemma_replaced_none("win"@, "control"@, "ctrl"@);
    lemma_replaced_none("win"@, "command"@, "super"@);
    lemma_replaced_none("win"@, "meta"@, "super"@);
    lemma_replaced_whole("win"@, "super"@);
}

/// A single token says what it adds to nothing.
proof fn lemma_read_one(token: Seq<char>, hotkey: Seq<char>)
    ensures
        binding::read_tokens(seq![token], hotkey) == binding::with_token(
            binding::Partial {
                ctrl: false,
                alt: false,
                shift: false,
                super_key: false,
                main: None,
            },
            token,
            hotkey,
        ),
        binding::read_tokens(Seq::<Seq<char>>::empty(), hotkey) is Ok,
{
    let none = Seq::<Seq<char>>::empty();
    assert(seq![token].drop_last() =~= none);
    assert(seq![token].last() == token);
    assert(binding::read_tokens(none, hotkey) is Ok);
}

/// What tokens say together with one that names a modifier.
spec fn with_modifier(all: binding::Partial, word: Seq<char>) -> binding::Partial {
    binding::Partial {
        ctrl: all.ctrl || binding::ctrl_word(word),
        alt: all.alt || binding::alt_word(word),
        shift: all.shift || binding::shift_word(word),
        super_key: all.super_key || binding::super_word(word),
        main: all.main,
    }
}

/// A modifier in front of tokens adds itself to what they say.
proof fn lemma_read_behind_modifier(
    word: Seq<char>,
    tokens: Seq<Seq<char>>,
    hotkey: Seq<char>,
    other: Seq<char>,
)
    requires
        binding::modifier_word(word),
        binding::read_tokens(tokens, other) is Ok,
    ensures
        binding::read_tokens(seq![word] + tokens, hotkey) == Ok::<_, Seq<char>>(
            with_modifier(binding::read_tokens(tokens, other)->Ok_0, word),
        ),
    decreases tokens.len(),
{
    let whole = seq![word] + tokens;
    binding::lemma_modifier_words(word);
    if tokens.len() == 0 {
        assert(whole =~= seq![word]);
        lemma_read_one(word, hotkey);
    } else {
        lemma_read_behind_modifier(word, tokens.drop_last(), hotkey, other);
        assert(whole.drop_last() =~= seq![word] + tokens.drop_last());
        assert(whole.last() == tokens.last());
    }
}

/// A word that names a modifier is a text with one token.
proof fn lemma_modifier_token(word: Seq<char>, normal: Seq<char>)
    requires
        binding::modifier_word(word),
        binding::modifier_word(normal),
        binding::normalized(word) == normal,
    ensures
        binding::hotkey_tokens(word) == seq![normal],
        !text::has_capital_sigma(word),
{
    binding::lemma_modifier_words(word);
    binding::lemma_modifier_words(normal);
    text::lemma_pieces_of_one(normal, '+');
    text::lemma_trimmed_already(normal);
    assert(binding::hotkey_tokens(word) =~= seq![normal]);
}

/// A modifier in front of an accepted text.
proof fn lemma_modifier_in_front(word: Seq<char>, normal: Seq<char>, rest: Seq<char>)
    requires
        binding::modifier_word(word),
        binding::modifier_word(normal),
        binding::normalized(word) == normal,
        !text::has_capital_sigma(rest),
        binding::read_tokens(binding::hotkey_tokens(rest), rest) is Ok,
    ensures
        ({
            let all = with_modifier(
                binding::read_tokens(binding::hotkey_tokens(rest), rest)->Ok_0,
                normal,
            );
            binding::read_tokens(
                binding::hotkey_tokens(word.push('+') + rest),
                word.push('+') + rest,
            ) == Ok::<_, Seq<char>>(all)
        }),
{
    let whole = word.push('+') + rest;
    lemma_modifier_token(word, normal);
    parts::law_tokens_go_part_by_part(word, rest);
    lemma_read_behind_modifier(normal, binding::hotkey_tokens(rest), whole, rest);
}

/// Each name of a modifier, in front of an accepted hotkey text, adds that modifier to the binding
/// and changes nothing else. `law_order_of_parts_does_not_matter` carries this over to any other
/// place in the text.
pub proof fn law_modifier_in_front(rest: Seq<char>)
    requires
        !text::has_capital_sigma(rest),
        binding::parsed_hotkey(rest) is Ok,
    ensures
        binding::parsed_hotkey("ctrl"@.push('+') + rest) == Ok::<_, Seq<char>>(
            (binding::BindingModel { ctrl: true, ..binding::parsed_hotkey(rest)->Ok_0 }),
        ),
        binding::parsed_hotkey("control"@.push('+') + rest) == Ok::<_, Seq<char>>(
            (binding::BindingModel { ctrl: true, ..binding::parsed_hotkey(rest)->Ok_0 }),
        ),
        binding::parsed_hotkey("alt"@.push('+') + rest) == Ok::<_, Seq<char>>(
            (binding::BindingModel { alt: true, ..binding::parsed_hotkey(rest)->Ok_0 }),
        ),
        binding::parsed_hotkey("option"@.push('+') + rest) == Ok::<_, Seq<char>>(
            (binding::BindingModel { alt: true, ..binding::parsed_hotkey(rest)->Ok_0 }),
        ),
        binding::parsed_hotkey("shift"@.push('+') + rest) == Ok::<_, Seq<char>>(
            (binding::BindingModel { shift: true, ..binding::parsed_hotkey(rest)->Ok_0 }),
        ),
        binding::parsed_hotkey("super"@.push('+') + rest) == Ok::<_, Seq<char>>(
            (binding::BindingModel { super_key: true, ..binding::parsed_hotkey(rest)->Ok_0 }),
        ),
        binding::parsed_hotkey("command"@.push('+') + rest) == Ok::<_, Seq<char>>(
            (binding::BindingModel { super_key: true, ..binding::parsed_hotkey(rest)->Ok_0 }),
        ),
        binding::parsed_hotkey("cmd"@.push('+') + rest) == Ok::<_, Seq<char>>(
            (binding::BindingModel { super_key: true, ..binding::parsed_hotkey(rest)->Ok_0 }),
        ),
        binding::parsed_hotkey("meta"@.push('+') + rest) == Ok::<_, Seq<char>>(
            (binding::BindingModel { super_key: true, ..binding::parsed_hotkey(rest)->Ok_0 }),
        ),
        binding::parsed_hotkey("win"@.push('+') + rest) == Ok::<_, Seq<char>>(
            (binding::BindingModel { super_key: true, ..binding::parsed_hotkey(rest)->Ok_0 }),
        ),
{
    lemma_normal_modifiers();
    binding::lemma_modifier_words("ctrl"@);
    binding::lemma_modifier_words("alt"@);
    binding::lemma_modifier_words("option"@);
    binding::lemma_modifier_words("shift"@);
    binding::lemma_modifier_words("super"@);
    binding::lemma_modifier_words("cmd"@);
    lemma_modifier_in_front("ctrl"@, "ctrl"@, rest);
    lemma_modifier_in_front("control"@, "ctrl"@, rest);
    lemma_modifier_in_front("alt"@, "alt"@, rest);
    lemma_modifier_in_front("option"@, "option"@, rest);
    lemma_modifier_in_front("shift"@, "shift"@, rest);
    lemma_modifier_in_front("super"@, "super"@, rest);
    lemma_modifier_in_front("command"@, "super"@, rest);
    lemma_modifier_in_front("cmd"@, "cmd"@, rest);
    lemma_modifier_in_front("meta"@, "super"@, rest);
    lemma_modifier_in_front("win"@, "super"@, rest);
}

/// Whether a text is refused because it has no main key.
pub open spec fn lacks_main_key(hotkey: Seq<char>) -> bool {
    binding::parsed_hotkey(hotkey) == Err::<binding::BindingModel, _>(
        "Invalid hotkey '"@ + hotkey + "': missing main key"@,
    )
}

/// A text that is refused for want of a main key has tokens that can be read.
proof fn lemma_lacks_main_key(hotkey: Seq<char>)
    requires
        lacks_main_key(hotkey),
    ensures
        binding::read_tokens(binding::hotkey_tokens(hotkey), hotkey) matches Ok(all)
            && all.main is None,
{
    reveal_strlit("Invalid hotkey '");
    reveal_strlit("': found empty key token");
    reveal_strlit("': use modifiers first and only one main key");
    reveal_strlit("': missing main key");
    reveal_strlit("Couldn't recognize '");
    assert("': found empty key token"@.len() == 24);
    assert("': use modifiers first and only one main key"@.len() == 44);
    assert("': missing main key"@.len() == 19);
    assert("Invalid hotkey '"@.len() == 16 && "Invalid hotkey '"@[0] == 'I');
    assert("Couldn't recognize '"@.len() == 20 && "Couldn't recognize '"@[0] == 'C');
    let message = "Invalid hotkey '"@ + hotkey + "': missing main key"@;
    assert(message[0] == 'I');
    assert(message.len() == 35 + hotkey.len());
    assert(binding::empty_token(hotkey).len() == 40 + hotkey.len());
    assert(binding::second_main_key(hotkey).len() == 60 + hotkey.len());
    lemma_refusals(binding::hotkey_tokens(hotkey), hotkey);
}

/// The messages that refuse tokens.
proof fn lemma_refusals(tokens: Seq<Seq<char>>, hotkey: Seq<char>)
    ensures
        binding::read_tokens(tokens, hotkey) matches Err(message) ==> {
            ||| message == binding::empty_token(hotkey)
            ||| message == binding::second_main_key(hotkey)
            ||| message.len() > 0 && message[0] == 'C'
        },
    decreases tokens.len(),
{
    reveal_strlit("Couldn't recognize '");
    assert("Couldn't recognize '"@.len() == 20 && "Couldn't recognize '"@[0] == 'C');
    if tokens.len() > 0 {
        lemma_refusals(tokens.drop_last(), hotkey);
    }
}

/// A name of a modifier alone is refused for want of a main key, and in front of a text that is
/// refused for that reason it changes nothing of it.
pub proof fn law_modifiers_need_a_main_key(rest: Seq<char>, word: Seq<char>)
    requires
        !text::has_capital_sigma(rest),
        lacks_main_key(rest),
        word == "ctrl"@ || word == "control"@ || word == "alt"@ || word == "option"@ || word == "shift"@ || word == "super"@ || word == "command"@ || word == "cmd"@ || word == "meta"@ || word == "win"@,
    ensures
        lacks_main_key(word),
        lacks_main_key(word.push('+') + rest),
{
    lemma_normal_modifiers();
    let normal = binding::normalized(word);
    lemma_lacks_main_key(rest);
    lemma_modifier_in_front(word, normal, rest);
    lemma_modifier_token(word, normal);
    let none = Seq::<Seq<char>>::empty();
    lemma_read_behind_modifier(normal, none, word, word);
    assert(seq![normal] + none =~= seq![normal]);
}

/// Tokens with a main key behind tokens with a main key are refused, at the second one.
proof fn lemma_read_behind_main_key(
    first: Seq<Seq<char>>,
    second: Seq<Seq<char>>,
    hotkey: Seq<char>,
    other: Seq<char>,
)
    requires
        binding::read_tokens(first, hotkey) matches Ok(all) && all.main is Some,
        binding::read_tokens(second, other) is Ok,
    ensures
        ({
            let r = binding::read_tokens(first + second, hotkey);
            if (binding::read_tokens(second, other)->Ok_0).main is Some {
                r == Err::<binding::Partial, _>(binding::second_main_key(hotkey))
            } else {
                r matches Ok(all) && all.main is Some
            }
        }),
    decreases second.len(),
{
    if second.len() == 0 {
        assert(first + second =~= first);
    } else {
        lemma_read_behind_main_key(first, second.drop_last(), hotkey, other);
        assert((first + second).drop_last() =~= first + second.drop_last());
        assert((first + second).last() == second.last());
    }
}

/// Tokens that can be read in one text can be read in another, and say the same.
proof fn lemma_read_elsewhere(tokens: Seq<Seq<char>>, hotkey: Seq<char>, other: Seq<char>)
    requires
        binding::read_tokens(tokens, other) is Ok,
    ensures
        binding::read_tokens(tokens, hotkey) == binding::read_tokens(tokens, other),
    decreases tokens.len(),
{
    if tokens.len() > 0 {
        lemma_read_elsewhere(tokens.drop_last(), hotkey, other);
    }
}

/// Two accepted hotkey texts with a plus sign between them are refused: there may be only one main
/// key.
pub proof fn law_two_main_keys_are_refused(a: Seq<char>, b: Seq<char>)
    requires
        !text::has_capital_sigma(a),
        !text::has_capital_sigma(b),
        binding::parsed_hotkey(a) is Ok,
        binding::parsed_hotkey(b) is Ok,
    ensures
        binding::parsed_hotkey(a.push('+') + b) == Err::<binding::BindingModel, _>(
            "Invalid hotkey '"@ + (a.push('+') + b)
                + "': use modifiers first and only one main key"@,
        ),
{
    let whole = a.push('+') + b;
    parts::law_tokens_go_part_by_part(a, b);
    lemma_read_elsewhere(binding::hotkey_tokens(a), whole, a);
    lemma_read_behind_main_key(binding::hotkey_tokens(a), binding::hotkey_tokens(b), whole, b);
}

/// When texts with one behind the other can be read.
proof fn lemma_acceptable_in_two(
    first: Seq<Seq<char>>,
    second: Seq<Seq<char>>,
    hotkey: Seq<char>,
    a: Seq<char>,
    b: Seq<char>,
)
    ensures
        binding::acceptable(first + second, hotkey) <==> binding::acceptable(first, a)
            && binding::acceptable(second, b) && !(binding::some_main(first) && binding::some_main(
            second,
        )),
        binding::some_main(first + second) <==> binding::some_main(first) || binding::some_main(
            second,
        ),
{
    let both = first + second;
    let n = first.len() as int;
    assert(forall|i: int| 0 <= i < n ==> #[trigger] both[i] == first[i]);
    assert(forall|i: int| 0 <= i < n ==> #[trigger] first[i] == both[i]);
    assert(forall|i: int| 0 <= i < second.len() ==> #[trigger] second[i] == both[n + i]);
    assert(forall|i: int| n <= i < both.len() ==> #[trigger] both[i] == second[i - n]);
    if binding::acceptable(both, hotkey) && binding::some_main(first) && binding::some_main(
        second,
    ) {
        let i = choose|i: int| 0 <= i < n && !binding::modifier_word(#[trigger] first[i]);
        let j = choose|j: int|
            0 <= j < second.len() && !binding::modifier_word(#[trigger] second[j]);
        assert(binding::modifier_word(both[i]) || binding::modifier_word(both[n + j]));
    }
    if binding::acceptable(both, hotkey) {
        assert forall|i: int, j: int|
            0 <= i < j < second.len() implies binding::modifier_word(#[trigger] second[i])
            || binding::modifier_word(#[trigger] second[j]) by {
            assert(binding::modifier_word(both[n + i]) || binding::modifier_word(both[n + j]));
        }
    }
}

/// Two texts with a plus sign between them are accepted if and only if one of them is, and the other
/// lacks nothing but a main key. The key is then that of the accepted one, and no modifier of it is
/// lost.
pub proof fn law_one_part_has_the_main_key(a: Seq<char>, b: Seq<char>)
    requires
        !text::has_capital_sigma(a),
        !text::has_capital_sigma(b),
    ensures
        ({
            let both = binding::parsed_hotkey(a.push('+') + b);
            &&& both is Ok <==> binding::parsed_hotkey(a) is Ok && lacks_main_key(b)
                || lacks_main_key(a) && binding::parsed_hotkey(b) is Ok
            &&& binding::parsed_hotkey(a) matches Ok(x) ==> (both matches Ok(y) ==> adds_modifiers(
                x,
                y,
            ))
            &&& binding::parsed_hotkey(b) matches Ok(x) ==> (both matches Ok(y) ==> adds_modifiers(
                x,
                y,
            ))
        }),
{
    let whole = a.push('+') + b;
    let ta = binding::hotkey_tokens(a);
    let tb = binding::hotkey_tokens(b);
    let tokens = ta + tb;
    parts::law_tokens_go_part_by_part(a, b);
    lemma_acceptable_in_two(ta, tb, whole, a, b);
    lemma_when_main_key_is_missing(a);
    lemma_when_main_key_is_missing(b);
    binding::law_accepted_hotkeys(a);
    binding::law_accepted_hotkeys(b);
    binding::law_accepted_hotkeys(whole);
    let n = ta.len() as int;
    assert(forall|i: int| 0 <= i < n ==> #[trigger] ta[i] == tokens[i]);
    assert(forall|i: int| 0 <= i < tb.len() ==> #[trigger] tb[i] == tokens[n + i]);
    if binding::parsed_hotkey(whole) is Ok {
        if binding::parsed_hotkey(a) is Ok {
            let i = choose|i: int| 0 <= i < n && !binding::modifier_word(#[trigger] ta[i]);
            assert(!binding::modifier_word(tokens[i]));
        }
        if binding::parsed_hotkey(b) is Ok {
            let i = choose|i: int| 0 <= i < tb.len() && !binding::modifier_word(#[trigger] tb[i]);
            assert(!binding::modifier_word(tokens[n + i]));
        }
    }
}

/// Whether `y` has the key of `x` and all its modifiers.
pub open spec fn adds_modifiers(x: binding::BindingModel, y: binding::BindingModel) -> bool {
    &&& x.ctrl ==> y.ctrl
    &&& x.alt ==> y.alt
    &&& x.shift ==> y.shift
    &&& x.super_key ==> y.super_key
    &&& x.main_vk == y.main_vk && x.key_token == y.key_token
}

/// When a text is refused for want of a main key.
proof fn lemma_when_main_key_is_missing(hotkey: Seq<char>)
    ensures
        lacks_main_key(hotkey) <==> binding::acceptable(binding::hotkey_tokens(hotkey), hotkey)
            && !binding::some_main(binding::hotkey_tokens(hotkey)),
{
    binding::lemma_read_tokens(binding::hotkey_tokens(hotkey), hotkey);
    if lacks_main_key(hotkey) {
        lemma_lacks_main_key(hotkey);
    }
}

/// Behind an accepted text, or one that lacks nothing but a main key, a part that names neither a
/// modifier nor a key is refused with the message that names it.
pub proof fn law_unknown_parts_are_named(a: Seq<char>, b: Seq<char>)
    requires
        !text::has_capital_sigma(a),
        !text::has_capital_sigma(b),
        binding::parsed_hotkey(a) is Ok || lacks_main_key(a),
        !binding::normalized(b).contains('+'),
        text::trimmed(binding::normalized(b)).len() > 0,
        !binding::modifier_word(text::trimmed(binding::normalized(b))),
    ensures
        main_key::main_key(text::trimmed(binding::normalized(b)), a.push('+') + b) matches Err(
            message,
        ) ==> binding::parsed_hotkey(a.push('+') + b) == Err::<binding::BindingModel, _>(message),
{
    let whole = a.push('+') + b;
    let word = text::trimmed(binding::normalized(b));
    let ta = binding::hotkey_tokens(a);
    parts::law_tokens_go_part_by_part(a, b);
    text::lemma_pieces_of_one(binding::normalized(b), '+');
    assert(binding::hotkey_tokens(b) =~= seq![word]);
    if lacks_main_key(a) {
        lemma_lacks_main_key(a);
    }
    lemma_read_elsewhere(ta, whole, a);
    assert((ta + seq![word]).drop_last() =~= ta);
    assert((ta + seq![word]).last() == word);
}

/// A part of white space is an empty token.
proof fn lemma_blank_token(blank: Seq<char>)
    requires
        text::trimmed(blank).len() == 0,
    ensures
        binding::hotkey_tokens(blank) == seq![Seq::<char>::empty()],
{
    let none = Seq::<char>::empty();
    assert(text::trimmed(blank) =~= none);
    assert(text::lowercase(none) =~= none);
    assert(binding::normalized(blank) =~= none);
    text::lemma_pieces_of_one(none, '+');
    assert(text::trimmed(none) =~= none);
    assert(binding::hotkey_tokens(blank) =~= seq![none]);
}

/// A part that is empty or all white space is refused: alone, in front of any text, and behind one
/// that is accepted or lacks nothing but a main key.
pub proof fn law_empty_parts_are_refused(a: Seq<char>, blank: Seq<char>)
    requires
        !text::has_capital_sigma(a),
        forall|i: int| 0 <= i < blank.len() ==> text::white_space(#[trigger] blank[i]),
    ensures
        binding::parsed_hotkey(blank) == Err::<binding::BindingModel, _>(
            "Invalid hotkey '"@ + blank + "': found empty key token"@,
        ),
        binding::parsed_hotkey(blank.push('+') + a) == Err::<binding::BindingModel, _>(
            "Invalid hotkey '"@ + (blank.push('+') + a) + "': found empty key token"@,
        ),
        binding::parsed_hotkey(a) is Ok || lacks_main_key(a) ==> binding::parsed_hotkey(
            a.push('+') + blank,
        ) == Err::<binding::BindingModel, _>(
            "Invalid hotkey '"@ + (a.push('+') + blank) + "': found empty key token"@,
        ),
{
    let none = Seq::<char>::empty();
    let tokens = seq![none];
    text::lemma_trimmed(blank);
    if text::trimmed(blank).len() > 0 {
        let c = text::trimmed(blank)[0];
        let i = choose|i: int| 0 <= i < blank.len() && blank[i] == c;
        assert(text::white_space(blank[i]));
    }
    lemma_blank_token(blank);
    assert(!text::has_capital_sigma(blank));
    parts::law_tokens_go_part_by_part(blank, a);
    parts::law_tokens_go_part_by_part(a, blank);
    let behind = blank.push('+') + a;
    let before = a.push('+') + blank;
    lemma_read_one(none, blank);
    lemma_read_one(none, behind);
    let all = tokens + binding::hotkey_tokens(a);
    assert(all.take(1) =~= tokens);
    binding::lemma_refusal_stays(all, 1, behind);
    if binding::parsed_hotkey(a) is Ok || lacks_main_key(a) {
        if lacks_main_key(a) {
            lemma_lacks_main_key(a);
        }
        lemma_read_elsewhere(binding::hotkey_tokens(a), before, a);
        let both = binding::hotkey_tokens(a) + tokens;
        assert(both.drop_last() =~= binding::hotkey_tokens(a));
        assert(both.last() == none);
    }
}

/// Whether two messages refuse two texts for the same reason: an empty token, a second main key, or
/// the same word that names no key.
pub open spec fn same_reason(
    message: Seq<char>,
    hotkey: Seq<char>,
    other_message: Seq<char>,
    other: Seq<char>,
) -> bool {
    ||| message == "Invalid hotkey '"@ + hotkey + "': found empty key token"@ && other_message
        == "Invalid hotkey '"@ + other + "': found empty key token"@
    ||| message == "Invalid hotkey '"@ + hotkey + "': use modifiers first and only one main key"@
        && other_message == "Invalid hotkey '"@ + other
        + "': use modifiers first and only one main key"@
    ||| exists|word: Seq<char>|
        message == #[trigger] key_names::unknown_key(word, hotkey) && other_message
            == key_names::unknown_key(word, other)
}

/// Tokens that are refused in one text are refused for the same reason in another.
proof fn lemma_refused_elsewhere(tokens: Seq<Seq<char>>, hotkey: Seq<char>, other: Seq<char>)
    requires
        binding::read_tokens(tokens, hotkey) is Err,
    ensures
        binding::read_tokens(tokens, other) is Err,
        same_reason(
            binding::read_tokens(tokens, hotkey)->Err_0,
            hotkey,
            binding::read_tokens(tokens, other)->Err_0,
            other,
        ),
    decreases tokens.len(),
{
    if tokens.len() > 0 {
        let before = tokens.drop_last();
        let last = tokens.last();
        if binding::read_tokens(before, hotkey) is Err {
            lemma_refused_elsewhere(before, hotkey, other);
        } else {
            lemma_read_elsewhere(before, other, hotkey);
            if main_key::main_key(last, hotkey) is Err {
                let word = key_names::lemma_unknown_word(last, hotkey, other);
                assert(main_key::main_key(last, hotkey)->Err_0 == key_names::unknown_key(
                    word,
                    hotkey,
                ));
            }
        }
    }
}

/// A text that is refused for what stands in it, and not for want of a main key, is refused for the
/// same reason whatever follows it.
pub proof fn law_first_refusal_decides(a: Seq<char>, b: Seq<char>)
    requires
        !text::has_capital_sigma(a),
        !text::has_capital_sigma(b),
        binding::parsed_hotkey(a) is Err,
        !lacks_main_key(a),
    ensures
        binding::parsed_hotkey(a.push('+') + b) is Err,
        same_reason(
            binding::parsed_hotkey(a)->Err_0,
            a,
            binding::parsed_hotkey(a.push('+') + b)->Err_0,
            a.push('+') + b,
        ),
{
    let whole = a.push('+') + b;
    let ta = binding::hotkey_tokens(a);
    let all = ta + binding::hotkey_tokens(b);
    parts::law_tokens_go_part_by_part(a, b);
    lemma_refused_elsewhere(ta, a, whole);
    assert(all.take(ta.len() as int) =~= ta);
    binding::lemma_refusal_stays(all, ta.len() as int, whole);
}

/// White space around a part changes nothing, wherever the part stands.
pub proof fn law_space_around_parts_does_not_matter(a: Seq<char>, b: Seq<char>)
    requires
        !text::has_capital_sigma(a),
        !text::has_capital_sigma(b),
    ensures
        ({
            let spaced = binding::parsed_hotkey(a.push('+') + b);
            let tight = binding::parsed_hotkey(text::trimmed(a).push('+') + text::trimmed(b));
            &&& spaced is Ok <==> tight is Ok
            &&& spaced is Ok ==> spaced == tight
        }),
{
    let spaced = a.push('+') + b;
    let tight = text::trimmed(a).push('+') + text::trimmed(b);
    text::lemma_trimmed_keeps_out(a, '\u{3a3}');
    text::lemma_trimmed_keeps_out(b, '\u{3a3}');
    normal_form::law_outer_space_does_not_matter(a);
    normal_form::law_outer_space_does_not_matter(b);
    parts::law_tokens_go_part_by_part(a, b);
    parts::law_tokens_go_part_by_part(text::trimmed(a), text::trimmed(b));
    let tokens = binding::hotkey_tokens(spaced);
    if binding::read_tokens(tokens, spaced) is Ok {
        lemma_read_elsewhere(tokens, tight, spaced);
    }
    if binding::read_tokens(tokens, tight) is Ok {
        lemma_read_elsewhere(tokens, spaced, tight);
    }
}

/// A text with one part is accepted if and only if that part names a key and no modifier. The binding
/// has no modifiers then, and the key is the one that the part names.
pub proof fn law_key_alone(hotkey: Seq<char>)
    requires
        !binding::normalized(hotkey).contains('+'),
    ensures
        ({
            let word = text::trimmed(binding::normalized(hotkey));
            &&& binding::parsed_hotkey(hotkey) is Ok <==> main_key::main_key(word, hotkey) is Ok
                && !binding::modifier_word(word)
            &&& binding::parsed_hotkey(hotkey) matches Ok(b) ==> {
                &&& !b.ctrl && !b.alt && !b.shift && !b.super_key
                &&& main_key::main_key(word, hotkey) == Ok::<_, Seq<char>>((b.main_vk, b.key_token))
            }
            &&& word.len() > 0 && !binding::modifier_word(word) ==> (main_key::main_key(
                word,
                hotkey,
            ) matches Err(message) ==> binding::parsed_hotkey(hotkey) == Err::<
                binding::BindingModel,
                _,
            >(message))
        }),
{
    let normal = binding::normalized(hotkey);
    let word = text::trimmed(normal);
    let tokens = binding::hotkey_tokens(hotkey);
    text::lemma_pieces_of_one(normal, '+');
    assert(tokens =~= seq![word]);
    lemma_read_one(word, hotkey);
    binding::lemma_modifier_words(word);
    if word.len() == 0 && main_key::main_key(word, hotkey) is Ok {
        text::lemma_trimmed_twice(normal);
        assert(text::lowercase(word) =~= word);
        key_names::lemma_no_key_without_a_name(word, hotkey);
    }
}

/// A letter or digit alone is a hotkey without modifiers, whose code is the ASCII code of its capital
/// form.
pub proof fn law_letter_or_digit_alone(c: char)
    requires
        'a' <= c <= 'z' || 'A' <= c <= 'Z' || '0' <= c <= '9',
    ensures
        binding::parsed_hotkey(seq![c]) matches Ok(b) && !b.ctrl && !b.alt && !b.shift
            && !b.super_key && b.main_vk == key_names::capital(c) && b.key_token.len() == 1
            && key_names::capital(b.key_token[0]) == key_names::capital(c),
{
    let one = seq![c];
    let small = seq![text::ascii_lower(c)];
    text::lemma_trimmed_already(one);
    text::lemma_trimmed_already(small);
    assert(text::ascii_lowercase(one) =~= small);
    normal_form::lemma_alias_words();
    reveal_strlit("control");
    reveal_strlit("command");
    reveal_strlit("meta");
    reveal_strlit("win");
    assert("control"@.len() == 7 && "command"@.len() == 7 && "meta"@.len() == 4 && "win"@.len()
        == 3);
    lemma_replaced_none(small, "control"@, "ctrl"@);
    lemma_replaced_none(small, "command"@, "super"@);
    lemma_replaced_none(small, "meta"@, "super"@);
    lemma_replaced_none(small, "win"@, "super"@);
    law_key_alone(one);
    key_names::law_letters_and_digits(small[0], one);
    binding::lemma_modifier_words(small);
}

/// The canonical text of a binding is its key's name behind its modifiers, in the order Ctrl, Alt,
/// Shift, Super, each with a plus sign behind it.
pub proof fn law_canonical_text(b: binding::BindingModel)
    ensures
        ({
            let printed = binding::formatted(b);
            &&& b.ctrl ==> printed == "ctrl"@.push('+') + binding::formatted(
                binding::BindingModel { ctrl: false, ..b },
            )
            &&& !b.ctrl && b.alt ==> printed == "alt"@.push('+') + binding::formatted(
                binding::BindingModel { alt: false, ..b },
            )
            &&& !b.ctrl && !b.alt && b.shift ==> printed == "shift"@.push('+') + binding::formatted(
                binding::BindingModel { shift: false, ..b },
            )
            &&& !b.ctrl && !b.alt && !b.shift && b.super_key ==> printed == "super"@.push('+')
                + b.key_token
            &&& !b.ctrl && !b.alt && !b.shift && !b.super_key ==> printed == b.key_token
        }),
{
    round_trip::lemma_modifier_names();
    let printed = binding::formatted(b);
    if b.ctrl {
        assert(printed =~= "ctrl"@.push('+') + binding::formatted(
            binding::BindingModel { ctrl: false, ..b },
        ));
    } else if b.alt {
        assert(printed =~= "alt"@.push('+') + binding::formatted(
            binding::BindingModel { alt: false, ..b },
        ));
    } else if b.shift {
        assert(printed =~= "shift"@.push('+') + binding::formatted(
            binding::BindingModel { shift: false, ..b },
        ));
    } else if b.super_key {
        assert(printed =~= "super"@.push('+') + b.key_token);
    } else {
        assert(printed =~= b.key_token);
    }
}

} // verus!
