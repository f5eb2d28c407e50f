//! Hotkey bindings: their text form and the modifiers they ask for.
use crate::hotkeys::accepted;
use crate::hotkeys::main_key;
use crate::hotkeys::main_key::parse_hotkey_main_key;
use crate::hotkeys::normal_form;
use crate::hotkeys::parts;
use crate::hotkeys::round_trip;
use crate::text;
use crate::text::same_text;
use vstd::prelude::*;
use vstd::string::*;

verus! {

/// A hotkey: the modifiers that go with it, the code of its main key, and that key's name.
#[derive(Clone, Debug, PartialEq, Eq)]
pub struct HotkeyBinding {
    pub ctrl: bool,
    pub alt: bool,
    pub shift: bool,
    pub super_key: bool,
    pub main_vk: i32,
    pub key_token: String,
}

/// A hotkey binding in the form that contracts speak of.
pub struct BindingModel {
    pub ctrl: bool,
    pub alt: bool,
    pub shift: bool,
    pub super_key: bool,
    pub main_vk: i32,
    pub key_token: Seq<char>,
}

impl View for HotkeyBinding {
    type V = BindingModel;

    open spec fn view(&self) -> BindingModel {
        BindingModel {
            ctrl: self.ctrl,
            alt: self.alt,
            shift: self.shift,
            super_key: self.super_key,
            main_vk: self.main_vk,
            key_token: self.key_token@,
        }
    }
}

/// The normal form of a hotkey text: trimmed, in lowercase, with the aliases of `ctrl` and `super`
/// replaced one after the other wherever they occur.
pub open spec fn normalized(value: Seq<char>) -> Seq<char> {
    let lower = text::lowercase(text::trimmed(value));
    let ctrl = text::replaced(lower, "control"@, "ctrl"@);
    let command = text::replaced(ctrl, "command"@, "super"@);
    let meta = text::replaced(command, "meta"@, "super"@);
    text::replaced(meta, "win"@, "super"@)
}

/// The tokens of a hotkey text: what stands between the plus signs of its normal form, trimmed.
pub open spec fn hotkey_tokens(hotkey: Seq<char>) -> Seq<Seq<char>> {
    text::pieces(normalized(hotkey), '+').map_values(|piece: Seq<char>| text::trimmed(piece))
}

/// Whether `token` names the Alt key.
pub open spec fn alt_word(token: Seq<char>) -> bool {
    token == "alt"@ || token == "option"@
}

/// Whether `token` names the Ctrl key.
pub open spec fn ctrl_word(token: Seq<char>) -> bool {
    token == "ctrl"@ || token == "control"@
}

/// Whether `token` names the Shift key.
pub open spec fn shift_word(token: Seq<char>) -> bool {
    token == "shift"@
}

/// Whether `token` names the Super key.
pub open spec fn super_word(token: Seq<char>) -> bool {
    token == "super"@ || token == "command"@ || token == "cmd"@ || token == "meta"@ || token
        == "win"@
}

/// Whether `token` names a modifier.
pub open spec fn modifier_word(token: Seq<char>) -> bool {
    alt_word(token) || ctrl_word(token) || shift_word(token) || super_word(token)
}

/// The message for a hotkey with nothing between two plus signs, or at an end.
pub open spec fn empty_token(hotkey: Seq<char>) -> Seq<char> {
    "Invalid hotkey '"@ + hotkey + "': found empty key token"@
}

/// The message for a hotkey with two main keys.
pub open spec fn second_main_key(hotkey: Seq<char>) -> Seq<char> {
    "Invalid hotkey '"@ + hotkey + "': use modifiers first and only one main key"@
}

/// The message for a hotkey with no main key.
pub open spec fn missing_main_key(hotkey: Seq<char>) -> Seq<char> {
    "Invalid hotkey '"@ + hotkey + "': missing main key"@
}

/// What the tokens read so far say.
pub struct Partial {
    pub ctrl: bool,
    pub alt: bool,
    pub shift: bool,
    pub super_key: bool,
    pub main: Option<(i32, Seq<char>)>,
}

/// What `before` and one more token say together, or the message that refuses the token.
pub open spec fn with_token(before: Partial, token: Seq<char>, hotkey: Seq<char>) -> Result<
    Partial,
    Seq<char>,
> {
    if token.len() == 0 {
        Err(empty_token(hotkey))
    } else if alt_word(token) {
        Ok(Partial { alt: true, ..before })
    } else if ctrl_word(token) {
        Ok(Partial { ctrl: true, ..before })
    } else if shift_word(token) {
        Ok(Partial { shift: true, ..before })
    } else if super_word(token) {
        Ok(Partial { super_key: true, ..before })
    } else {
        match main_key::main_key(token, hotkey) {
            Err(message) => Err(message),
            Ok(key) => if before.main is Some {
                Err(second_main_key(hotkey))
            } else {
                Ok(Partial { main: Some(key), ..before })
            },
        }
    }
}

/// What a sequence of tokens says, or the message for the first token that is refused.
pub open spec fn read_tokens(tokens: Seq<Seq<char>>, hotkey: Seq<char>) -> Result<
    Partial,
    Seq<char>,
>
    decreases tokens.len(),
{
    if tokens.len() == 0 {
        Ok(Partial { ctrl: false, alt: false, shift: false, super_key: false, main: None })
    } else {
        match read_tokens(tokens.drop_last(), hotkey) {
            Err(message) => Err(message),
            Ok(before) => with_token(before, tokens.last(), hotkey),
        }
    }
}

/// The binding that a hotkey text stands for, or the message that refuses it.
pub open spec fn parsed_hotkey(hotkey: Seq<char>) -> Result<BindingModel, Seq<char>> {
    match read_tokens(hotkey_tokens(hotkey), hotkey) {
        Err(message) => Err(message),
        Ok(all) => match all.main {
            None => Err(missing_main_key(hotkey)),
            Some((main_vk, key_token)) => Ok(
                BindingModel {
                    ctrl: all.ctrl,
                    alt: all.alt,
                    shift: all.shift,
                    super_key: all.super_key,
                    main_vk,
                    key_token,
                },
            ),
        },
    }
}

/// The canonical text of a binding: its modifiers in a fixed order, then its main key.
pub open spec fn formatted(binding: BindingModel) -> Seq<char> {
    (if binding.ctrl { "ctrl+"@ } else { ""@ }) + (if binding.alt { "alt+"@ } else { ""@ }) + (
    if binding.shift { "shift+"@ } else { ""@ }) + (if binding.super_key { "super+"@ } else { ""@ })
        + binding.key_token
}

/// A refused token stays the reason whatever follows it.
pub proof fn lemma_refusal_stays(tokens: Seq<Seq<char>>, i: int, hotkey: Seq<char>)
    requires
        0 <= i <= tokens.len(),
        read_tokens(tokens.take(i), hotkey) is Err,
    ensures
        read_tokens(tokens, hotkey) == read_tokens(tokens.take(i), hotkey),
    decreases tokens.len(),
{
    if i < tokens.len() {
        assert(tokens.drop_last().take(i) =~= tokens.take(i));
        lemma_refusal_stays(tokens.drop_last(), i, hotkey);
    } else {
        assert(tokens.take(i) =~= tokens);
    }
}

/// The normal form of a hotkey text. It is trimmed and in lowercase, it holds no alias, and
/// normalizing it again changes nothing. That of a text without a plus sign holds none either, and
/// is the one token of the text. Of a capital sigma it keeps a small one.
pub fn normalize_hotkey(value: &str) -> (r: String)
    ensures
        r@ == normalized(value@),
        text::trimmed(r@) == r@,
        text::lowercase(r@) == r@,
        text::all_lower(r@),
        normal_form::lacks_aliases(r@),
        normalized(r@) == r@,
        !value@.contains('+') ==> !r@.contains('+') && hotkey_tokens(value@) == seq![r@],
        text::has_capital_sigma(value@) ==> r@.contains('\u{3c3}') || r@.contains('\u{3c2}'),
{
    proof {
        reveal_strlit("control");
        reveal_strlit("command");
        reveal_strlit("meta");
        reveal_strlit("win");
    }
    let lower: String = text::to_lowercase(text::trim(value));
    proof {
        text::lemma_trimmed(value@);
        assert(text::trimmed(value@).len() == 0 ==> text::ascii_lowercase(text::trimmed(value@)).len()
            == 0);
        normal_form::lemma_normal_form_of_lower(value@);
        normal_form::law_normal_form_lacks_aliases(value@);
        normal_form::lemma_normal_form_keeps(value@, '+');
        normal_form::lemma_normal_form_keeps(value@, '\u{3c3}');
        normal_form::lemma_normal_form_keeps(value@, '\u{3c2}');
        if !value@.contains('+') {
            text::lemma_trimmed_keeps_out(value@, '+');
            text::lemma_pieces_of_one(normalized(value@), '+');
            assert(hotkey_tokens(value@) =~= seq![normalized(value@)]);
        }
        if text::has_capital_sigma(value@) {
            text::lemma_trimmed_keeps_in(value@, '\u{3a3}');
        }
    }
    let ctrl: String = text::replace_all(lower.as_str(), "control", "ctrl");
    let command: String = text::replace_all(ctrl.as_str(), "command", "super");
    let meta: String = text::replace_all(command.as_str(), "meta", "super");
    text::replace_all(meta.as_str(), "win", "super")
}

/// The message that a hotkey is refused with: the hotkey, and what is wrong with it.
fn invalid_hotkey(hotkey: &str, problem: &str) -> (r: String)
    ensures
        r@ == "Invalid hotkey '"@ + hotkey@ + problem@,
{
    let mut message: String = "Invalid hotkey '".to_owned();
    message.append(hotkey);
    message.append(problem);
    message
}

/// A parsed binding in the form that contracts speak of.
pub open spec fn binding_result_view(r: Result<HotkeyBinding, String>) -> Result<
    BindingModel,
    Seq<char>,
> {
    match r {
        Ok(binding) => Ok(binding@),
        Err(message) => Err(message@),
    }
}

/// Parses a hotkey text: modifiers and one main key, in any order, with plus signs between them.
/// Printing the binding gives a text that parses to it again, and so does putting the parts of the
/// hotkey in another order or repeating one of its modifiers. No accepted text holds a capital
/// sigma, and beyond ASCII the normal form of one holds white space at most.
pub fn parse_hotkey_binding(hotkey: &str) -> (r: Result<HotkeyBinding, String>)
    ensures
        binding_result_view(r) == parsed_hotkey(hotkey@),
        r matches Ok(binding) ==> !binding.key_token@.contains('+') && parsed_hotkey(
            formatted(binding@),
        ) == Ok::<_, Seq<char>>(binding@),
        r matches Ok(binding) ==> forall|other: Seq<char>|
            parts::reordered(hotkey@, other) || parts::repeats_modifier(hotkey@, other)
                ==> #[trigger] parsed_hotkey(other) == Ok::<_, Seq<char>>(binding@),
        r is Ok ==> !text::has_capital_sigma(hotkey@) && accepted::ascii_or_white_space(
            normalized(hotkey@),
        ),
{
    let normal: String = normalize_hotkey(hotkey);
    let pieces: Vec<&str> = text::split_on(normal.as_str(), '+');
    let ghost tokens = hotkey_tokens(hotkey@);
    let mut ctrl: bool = false;
    let mut alt: bool = false;
    let mut shift: bool = false;
    let mut super_key: bool = false;
    let mut main: Option<(i32, String)> = None;
    let mut i: usize = 0;
    proof {
        text::lemma_pieces_lack_separator(normal@, '+');
        assert(tokens.take(0) =~= Seq::<Seq<char>>::empty());
    }
    while i < pieces.len()
        invariant
            i <= pieces.len() == tokens.len(),
            tokens == hotkey_tokens(hotkey@),
            forall|j: int|
                0 <= j < pieces.len() ==> tokens[j] == text::trimmed(#[trigger] pieces@[j]@)
                    && !pieces@[j]@.contains('+'),
            read_tokens(tokens.take(i as int), hotkey@) == Ok::<_, Seq<char>>(
                Partial { ctrl, alt, shift, super_key, main: main_key::key_view(main) },
            ),
            main matches Some((_, name)) ==> !name@.contains('+'),
        decreases pieces.len() - i,
    {
        let token: &str = text::trim(pieces[i]);
        proof {
            text::lemma_trimmed_keeps_out(pieces@[i as int]@, '+');
            let next = tokens.take(i + 1);
            assert(next.drop_last() =~= tokens.take(i as int));
            assert(next.last() == token@);
            if read_tokens(next, hotkey@) is Err {
                lemma_refusal_stays(tokens, i + 1, hotkey@);
            }
        }
        if token.is_empty() {
            return Err(invalid_hotkey(hotkey, "': found empty key token"));
        }
        if same_text(token, "alt") || same_text(token, "option") {
            alt = true;
        } else if same_text(token, "ctrl") || same_text(token, "control") {
            ctrl = true;
        } else if same_text(token, "shift") {
            shift = true;
        } else if same_text(token, "super") || same_text(token, "command") || same_text(
            token,
            "cmd",
        ) || same_text(token, "meta") || same_text(token, "win") {
            super_key = true;
        } else {
            match parse_hotkey_main_key(token, hotkey) {
                Err(message) => {
                    return Err(message);
                },
                Ok(key) => {
                    if main.is_some() {
                        return Err(
                            invalid_hotkey(
                                hotkey,
                                "': use modifiers first and only one main key",
                            ),
                        );
                    }
                    main = Some(key);
                },
            }
        }
        i = i + 1;
    }
    assert(tokens.take(i as int) =~= tokens);
    match main {
        None => Err(invalid_hotkey(hotkey, "': missing main key")),
        Some((main_vk, key_token)) => {
            let binding = HotkeyBinding { ctrl, alt, shift, super_key, main_vk, key_token };
            proof {
                round_trip::law_parse_inverts_format(hotkey@);
                accepted::lemma_accepted_normal_form(hotkey@);
                assert forall|other: Seq<char>|
                    parts::reordered(hotkey@, other) || parts::repeats_modifier(
                        hotkey@,
                        other,
                    ) implies #[trigger] parsed_hotkey(other) == Ok::<_, Seq<char>>(binding@) by {
                    if parts::reordered(hotkey@, other) {
                        parts::law_order_of_parts_does_not_matter(hotkey@, other);
                    } else {
                        parts::law_repeated_modifier_changes_nothing(hotkey@, other);
                    }
                }
            }
            Ok(binding)
        },
    }
}

/// The canonical text of a binding.
pub fn format_hotkey_binding(binding: &HotkeyBinding) -> (r: String)
    ensures
        r@ == formatted(binding@),
{
    let mut out: String = String::new();
    proof {
        reveal_strlit("");
        assert(""@ =~= Seq::<char>::empty());
    }
    if binding.ctrl {
        out.append("ctrl+");
    }
    if binding.alt {
        out.append("alt+");
    }
    if binding.shift {
        out.append("shift+");
    }
    if binding.super_key {
        out.append("super+");
    }
    out.append(binding.key_token.as_str());
    assert(out@ =~= formatted(binding@));
    out
}

/// Whether one of the tokens names the Ctrl key.
pub open spec fn some_ctrl(tokens: Seq<Seq<char>>) -> bool {
    exists|i: int| 0 <= i < tokens.len() && ctrl_word(#[trigger] tokens[i])
}

/// Whether one of the tokens names the Alt key.
pub open spec fn some_alt(tokens: Seq<Seq<char>>) -> bool {
    exists|i: int| 0 <= i < tokens.len() && alt_word(#[trigger] tokens[i])
}

/// Whether one of the tokens names the Shift key.
pub open spec fn some_shift(tokens: Seq<Seq<char>>) -> bool {
    exists|i: int| 0 <= i < tokens.len() && shift_word(#[trigger] tokens[i])
}

/// Whether one of the tokens names the Super key.
pub open spec fn some_super(tokens: Seq<Seq<char>>) -> bool {
    exists|i: int| 0 <= i < tokens.len() && super_word(#[trigger] tokens[i])
}

/// Whether one of the tokens names no modifier.
pub open spec fn some_main(tokens: Seq<Seq<char>>) -> bool {
    exists|i: int| 0 <= i < tokens.len() && !modifier_word(#[trigger] tokens[i])
}

/// Whether no token is empty, every token is a modifier or a key, and at most one is a key.
pub open spec fn acceptable(tokens: Seq<Seq<char>>, hotkey: Seq<char>) -> bool {
    &&& forall|i: int| 0 <= i < tokens.len() ==> (#[trigger] tokens[i]).len() > 0
    &&& forall|i: int|
        0 <= i < tokens.len() && !modifier_word(#[trigger] tokens[i]) ==> main_key::main_key(
            tokens[i],
            hotkey,
        ) is Ok
    &&& forall|i: int, j: int|
        0 <= i < j < tokens.len() ==> modifier_word(#[trigger] tokens[i]) || modifier_word(
            #[trigger] tokens[j],
        )
}

/// No word names two modifiers. The words that name one are made of small letters, three at least,
/// and none starts with an `f`.
pub proof fn lemma_modifier_words(word: Seq<char>)
    ensures
        ctrl_word(word) ==> !alt_word(word) && !shift_word(word) && !super_word(word),
        alt_word(word) ==> !shift_word(word) && !super_word(word),
        shift_word(word) ==> !super_word(word),
        modifier_word(word) ==> word.len() >= 3 && word[0] != 'f' && forall|i: int|
            0 <= i < word.len() ==> 'a' <= #[trigger] word[i] <= 'z',
{
    reveal_strlit("alt");
    reveal_strlit("option");
    reveal_strlit("ctrl");
    reveal_strlit("control");
    reveal_strlit("shift");
    reveal_strlit("super");
    reveal_strlit("command");
    reveal_strlit("cmd");
    reveal_strlit("meta");
    reveal_strlit("win");
    assert("alt"@ =~= seq!['a', 'l', 't']);
    assert("option"@ =~= seq!['o', 'p', 't', 'i', 'o', 'n']);
    assert("ctrl"@ =~= seq!['c', 't', 'r', 'l']);
    assert("control"@ =~= seq!['c', 'o', 'n', 't', 'r', 'o', 'l']);
    assert("shift"@ =~= seq!['s', 'h', 'i', 'f', 't']);
    assert("super"@ =~= seq!['s', 'u', 'p', 'e', 'r']);
    assert("command"@ =~= seq!['c', 'o', 'm', 'm', 'a', 'n', 'd']);
    assert("cmd"@ =~= seq!['c', 'm', 'd']);
    assert("meta"@ =~= seq!['m', 'e', 't', 'a']);
    assert("win"@ =~= seq!['w', 'i', 'n']);
}

/// When one more token can be read.
proof fn lemma_acceptable_with(before: Seq<Seq<char>>, last: Seq<char>, hotkey: Seq<char>)
    ensures
        acceptable(before.push(last), hotkey) <==> {
            &&& acceptable(before, hotkey)
            &&& last.len() > 0
            &&& modifier_word(last) || (main_key::main_key(last, hotkey) is Ok && !some_main(before))
        },
{
    let tokens = before.push(last);
    let n = before.len() as int;
    assert(tokens[n] == last);
    assert(forall|i: int| 0 <= i < n ==> #[trigger] before[i] == tokens[i]);
    assert(forall|i: int| 0 <= i < n ==> #[trigger] tokens[i] == before[i]);
}

/// When tokens can be read, and what they then say.
pub proof fn lemma_read_tokens(tokens: Seq<Seq<char>>, hotkey: Seq<char>)
    ensures
        read_tokens(tokens, hotkey) is Ok <==> acceptable(tokens, hotkey),
        read_tokens(tokens, hotkey) matches Ok(all) ==> {
            &&& all.ctrl == some_ctrl(tokens)
            &&& all.alt == some_alt(tokens)
            &&& all.shift == some_shift(tokens)
            &&& all.super_key == some_super(tokens)
            &&& all.main is Some <==> some_main(tokens)
            &&& forall|i: int|
                0 <= i < tokens.len() && !modifier_word(#[trigger] tokens[i])
                    ==> main_key::main_key(tokens[i], hotkey) == Ok::<_, Seq<char>>(all.main->0)
        },
    decreases tokens.len(),
{
    if tokens.len() > 0 {
        let before = tokens.drop_last();
        let last = tokens.last();
        let n = before.len() as int;
        lemma_read_tokens(before, hotkey);
        lemma_modifier_words(last);
        lemma_acceptable_with(before, last, hotkey);
        assert(before.push(last) =~= tokens);
        assert(tokens[n] == last);
        assert(forall|i: int| 0 <= i < n ==> #[trigger] before[i] == tokens[i]);
        assert(forall|i: int| 0 <= i < n ==> #[trigger] tokens[i] == before[i]);
        assert(some_ctrl(tokens) <==> some_ctrl(before) || ctrl_word(last));
        assert(some_alt(tokens) <==> some_alt(before) || alt_word(last));
        assert(some_shift(tokens) <==> some_shift(before) || shift_word(last));
        assert(some_super(tokens) <==> some_super(before) || super_word(last));
        assert(some_main(tokens) <==> some_main(before) || !modifier_word(last));
    }
}

/// A hotkey text is accepted if and only if none of its tokens is empty, one of them is a key, and
/// all others are modifiers. The binding then asks for the modifiers that some token names, and
/// its key is the one that the remaining token stands for.
pub proof fn law_accepted_hotkeys(hotkey: Seq<char>)
    ensures
        ({
            let tokens = hotkey_tokens(hotkey);
            &&& parsed_hotkey(hotkey) is Ok <==> acceptable(tokens, hotkey) && some_main(tokens)
            &&& parsed_hotkey(hotkey) matches Ok(b) ==> {
                &&& b.ctrl == some_ctrl(tokens)
                &&& b.alt == some_alt(tokens)
                &&& b.shift == some_shift(tokens)
                &&& b.super_key == some_super(tokens)
                &&& forall|i: int|
                    0 <= i < tokens.len() && !modifier_word(#[trigger] tokens[i])
                        ==> main_key::main_key(tokens[i], hotkey) == Ok::<_, Seq<char>>(
                        (b.main_vk, b.key_token),
                    )
            }
        }),
{
    lemma_read_tokens(hotkey_tokens(hotkey), hotkey);
}

/// A hotkey text with an empty token is refused; the empty text is one.
pub proof fn law_empty_tokens_are_refused(hotkey: Seq<char>)
    requires
        hotkey.len() == 0 || (exists|i: int|
            0 <= i < hotkey_tokens(hotkey).len() && (#[trigger] hotkey_tokens(hotkey)[i]).len()
                == 0),
    ensures
        parsed_hotkey(hotkey) is Err,
{
    lemma_read_tokens(hotkey_tokens(hotkey), hotkey);
    if hotkey.len() == 0 {
        assert(text::lowercase(hotkey) =~= hotkey);
        assert(text::pieces(hotkey, '+') =~= seq![hotkey]);
        assert(hotkey_tokens(hotkey)[0].len() == 0);
    }
}

/// What contracts say of a binding, and of the result of parsing one, they say of its own fields.
pub proof fn law_models_keep_every_field(b: HotkeyBinding, message: String)
    ensures
        b@.ctrl == b.ctrl && b@.alt == b.alt && b@.shift == b.shift && b@.super_key == b.super_key,
        b@.main_vk == b.main_vk && b@.key_token == b.key_token@,
        binding_result_view(Ok(b)) == Ok::<_, Seq<char>>(b@),
        binding_result_view(Err(message)) == Err::<BindingModel, _>(message@),
        main_key::key_result_view(Ok((b.main_vk, b.key_token))) == Ok::<_, Seq<char>>(
            (b.main_vk, b.key_token@),
        ),
        main_key::key_result_view(Err(message)) == Err::<(i32, Seq<char>), _>(message@),
{
}

} // verus!
