//! The parts of a hotkey text, between its plus signs: each is normalized by itself, and neither
//! their order nor a repeated modifier matters.
use crate::hotkeys::binding;
use crate::hotkeys::main_key;
use crate::hotkeys::normal_form;
use crate::text;
use vstd::prelude::*;

verus! {

/// The parts of a hotkey text: what stands between its plus signs.
pub open spec fn hotkey_parts(hotkey: Seq<char>) -> Seq<Seq<char>> {
    text::pieces(hotkey, '+')
}

/// Whether two lists hold the same texts, in any order and any number.
pub open spec fn same_members(a: Seq<Seq<char>>, b: Seq<Seq<char>>) -> bool {
    &&& forall|i: int| 0 <= i < a.len() ==> b.contains(#[trigger] a[i])
    &&& forall|i: int| 0 <= i < b.len() ==> a.contains(#[trigger] b[i])
}

/// Whether at most one of the tokens names no modifier.
pub open spec fn at_most_one_main(tokens: Seq<Seq<char>>) -> bool {
    forall|i: int, j: int|
        0 <= i < j < tokens.len() ==> binding::modifier_word(#[trigger] tokens[i])
            || binding::modifier_word(#[trigger] tokens[j])
}

/// Two hotkey texts with the same tokens, in any order and with modifiers repeated or not, stand
/// for the same binding.
pub proof fn law_order_and_repeats_of_tokens_do_not_matter(a: Seq<char>, b: Seq<char>)
    requires
        same_members(binding::hotkey_tokens(a), binding::hotkey_tokens(b)),
        at_most_one_main(binding::hotkey_tokens(b)),
        binding::parsed_hotkey(a) is Ok,
    ensures
        binding::parsed_hotkey(b) == binding::parsed_hotkey(a),
{
    let ta = binding::hotkey_tokens(a);
    let tb = binding::hotkey_tokens(b);
    binding::law_accepted_hotkeys(a);
    binding::law_accepted_hotkeys(b);
    assert forall|i: int| 0 <= i < tb.len() implies (#[trigger] tb[i]).len() > 0 && (
    !binding::modifier_word(tb[i]) ==> main_key::main_key(tb[i], b) is Ok) by {
        let j = choose|j: int| 0 <= j < ta.len() && ta[j] == tb[i];
        assert(ta[j].len() > 0);
    }
    let main = choose|i: int| 0 <= i < ta.len() && !binding::modifier_word(#[trigger] ta[i]);
    let other = choose|j: int| 0 <= j < tb.len() && tb[j] == ta[main];
    assert(tb.contains(ta[main]));
    assert(!binding::modifier_word(tb[other]));
    assert(binding::some_main(tb));
    assert(binding::acceptable(tb, b));
    lemma_same_modifiers(ta, tb);
    lemma_same_modifiers(tb, ta);
    let x = binding::parsed_hotkey(a)->Ok_0;
    let y = binding::parsed_hotkey(b)->Ok_0;
    assert(main_key::main_key(ta[main], a) == Ok::<_, Seq<char>>((x.main_vk, x.key_token)));
    assert(main_key::main_key(tb[other], b) == Ok::<_, Seq<char>>((y.main_vk, y.key_token)));
    assert(x == y);
}

/// The modifiers that some token names are those that some token of a list with the same members
/// names.
proof fn lemma_same_modifiers(a: Seq<Seq<char>>, b: Seq<Seq<char>>)
    requires
        same_members(a, b),
    ensures
        binding::some_ctrl(a) ==> binding::some_ctrl(b),
        binding::some_alt(a) ==> binding::some_alt(b),
        binding::some_shift(a) ==> binding::some_shift(b),
        binding::some_super(a) ==> binding::some_super(b),
{
    if binding::some_ctrl(a) {
        let i = choose|i: int| 0 <= i < a.len() && binding::ctrl_word(#[trigger] a[i]);
        let j = choose|j: int| 0 <= j < b.len() && b[j] == a[i];
        assert(b.contains(a[i]));
        assert(binding::ctrl_word(b[j]));
    }
    if binding::some_alt(a) {
        let i = choose|i: int| 0 <= i < a.len() && binding::alt_word(#[trigger] a[i]);
        let j = choose|j: int| 0 <= j < b.len() && b[j] == a[i];
        assert(b.contains(a[i]));
        assert(binding::alt_word(b[j]));
    }
    if binding::some_shift(a) {
        let i = choose|i: int| 0 <= i < a.len() && binding::shift_word(#[trigger] a[i]);
        let j = choose|j: int| 0 <= j < b.len() && b[j] == a[i];
        assert(b.contains(a[i]));
        assert(binding::shift_word(b[j]));
    }
    if binding::some_super(a) {
        let i = choose|i: int| 0 <= i < a.len() && binding::super_word(#[trigger] a[i]);
        let j = choose|j: int| 0 <= j < b.len() && b[j] == a[i];
        assert(b.contains(a[i]));
        assert(binding::super_word(b[j]));
    }
}

/// All replacements of normalization, one after the other.
spec fn without_aliases(s: Seq<char>) -> Seq<char> {
    text::replaced(
        text::replaced(
            text::replaced(text::replaced(s, "control"@, "ctrl"@), "command"@, "super"@),
            "meta"@,
            "super"@,
        ),
        "win"@,
        "super"@,
    )
}

/// Replacing the aliases goes part by part.
proof fn lemma_parts_without_aliases(s: Seq<char>)
    ensures
        text::pieces(without_aliases(s), '+') == text::pieces(s, '+').map_values(
            |part: Seq<char>| without_aliases(part),
        ),
{
    normal_form::lemma_alias_words();
    let ctrl = text::replaced(s, "control"@, "ctrl"@);
    let command = text::replaced(ctrl, "command"@, "super"@);
    let meta = text::replaced(command, "meta"@, "super"@);
    text::lemma_pieces_of_replaced(s, '+', "control"@, "ctrl"@);
    text::lemma_pieces_of_replaced(ctrl, '+', "command"@, "super"@);
    text::lemma_pieces_of_replaced(command, '+', "meta"@, "super"@);
    text::lemma_pieces_of_replaced(meta, '+', "win"@, "super"@);
    assert(text::pieces(without_aliases(s), '+') =~= text::pieces(s, '+').map_values(
        |part: Seq<char>| without_aliases(part),
    ));
}

/// Replacing the aliases goes before or behind trimming alike.
proof fn lemma_trimmed_without_aliases(s: Seq<char>)
    ensures
        text::trimmed(without_aliases(s)) == without_aliases(text::trimmed(s)),
{
    normal_form::lemma_alias_words();
    let ctrl = text::replaced(s, "control"@, "ctrl"@);
    let command = text::replaced(ctrl, "command"@, "super"@);
    let meta = text::replaced(command, "meta"@, "super"@);
    text::lemma_trimmed_of_replaced(s, "control"@, "ctrl"@);
    text::lemma_trimmed_of_replaced(ctrl, "command"@, "super"@);
    text::lemma_trimmed_of_replaced(command, "meta"@, "super"@);
    text::lemma_trimmed_of_replaced(meta, "win"@, "super"@);
}

/// What trimming or splitting leaves of an ASCII text is ASCII.
proof fn lemma_parts_are_ascii(s: Seq<char>)
    requires
        text::all_ascii(s),
    ensures
        text::all_ascii(text::trimmed(s)),
        forall|i: int|
            0 <= i < hotkey_parts(s).len() ==> text::all_ascii(#[trigger] hotkey_parts(s)[i]),
    decreases s.len(),
{
    text::lemma_trimmed(s);
    assert forall|i: int| 0 <= i < text::trimmed(s).len() implies text::ascii(
        #[trigger] text::trimmed(s)[i],
    ) by {
        let j = choose|j: int| 0 <= j < s.len() && s[j] == text::trimmed(s)[i];
        assert(text::ascii(s[j]));
    }
    if s.len() > 0 {
        let rest = s.drop_last();
        assert(forall|i: int| 0 <= i < rest.len() ==> #[trigger] rest[i] == s[i]);
        lemma_parts_are_ascii(rest);
        text::lemma_pieces_lack_separator(rest, '+');
        let before = hotkey_parts(rest);
        assert(text::all_ascii(before[before.len() - 1]));
        assert(text::ascii(s[s.len() - 1]));
    }
}

/// The tokens of an ASCII hotkey text are the normal forms of its parts, one for one.
pub proof fn law_parts_are_normalized_one_by_one(hotkey: Seq<char>)
    requires
        text::all_ascii(hotkey),
    ensures
        binding::hotkey_tokens(hotkey) == hotkey_parts(hotkey).map_values(
            |part: Seq<char>| binding::normalized(part),
        ),
{
    let trimmed = text::trimmed(hotkey);
    let lower = text::ascii_lowercase(trimmed);
    let inner = text::pieces(trimmed, '+');
    let parts = hotkey_parts(hotkey);
    let tokens = binding::hotkey_tokens(hotkey);
    lemma_parts_are_ascii(hotkey);
    lemma_parts_are_ascii(trimmed);
    text::lemma_pieces_of_lowercase(trimmed, '+');
    lemma_parts_without_aliases(lower);
    text::lemma_pieces_of_trimmed(hotkey, '+');
    assert(text::trimmed_pieces(trimmed, '+').len() == inner.len());
    assert(text::trimmed_pieces(hotkey, '+').len() == parts.len());
    assert(binding::normalized(hotkey) == without_aliases(lower));
    assert forall|i: int| 0 <= i < parts.len() implies #[trigger] tokens[i] == binding::normalized(
        parts[i],
    ) by {
        let part = parts[i];
        assert(tokens[i] == text::trimmed(without_aliases(text::ascii_lowercase(inner[i]))));
        lemma_trimmed_without_aliases(text::ascii_lowercase(inner[i]));
        assert(text::all_ascii(hotkey_parts(trimmed)[i]));
        normal_form::lemma_lowercase_and_trim(inner[i]);
        assert(text::trimmed_pieces(trimmed, '+')[i] == text::trimmed(inner[i]));
        assert(text::trimmed_pieces(hotkey, '+')[i] == text::trimmed(part));
        assert(text::all_ascii(part));
        lemma_parts_are_ascii(part);
    }
    assert(tokens =~= parts.map_values(|p: Seq<char>| binding::normalized(p)));
}

/// The tokens of a hotkey text can be found without trimming it first.
proof fn lemma_tokens_untrimmed(hotkey: Seq<char>)
    requires
        !text::has_capital_sigma(hotkey),
    ensures
        binding::hotkey_tokens(hotkey) == text::trimmed_pieces(
            without_aliases(text::lower_chars(hotkey)),
            '+',
        ),
{
    let trimmed = text::trimmed(hotkey);
    let inner = text::lower_chars(trimmed);
    let outer = text::lower_chars(hotkey);
    text::lemma_trimmed_keeps_out(hotkey, '\u{3a3}');
    text::lemma_lowercase_by_character(trimmed);
    assert(binding::hotkey_tokens(hotkey) == text::trimmed_pieces(without_aliases(inner), '+'));
    text::lemma_pieces_of_trimmed(without_aliases(inner), '+');
    text::lemma_pieces_of_trimmed(without_aliases(outer), '+');
    lemma_trimmed_without_aliases(inner);
    lemma_trimmed_without_aliases(outer);
    text::lemma_trimmed_lower_chars(hotkey);
}

/// The tokens of two hotkey texts with a plus sign between them are those of the first, then those
/// of the second.
pub proof fn law_tokens_go_part_by_part(a: Seq<char>, b: Seq<char>)
    requires
        !text::has_capital_sigma(a),
        !text::has_capital_sigma(b),
    ensures
        binding::hotkey_tokens(a.push('+') + b) == binding::hotkey_tokens(a)
            + binding::hotkey_tokens(b),
{
    let whole = a.push('+') + b;
    let la = text::lower_chars(a);
    let lb = text::lower_chars(b);
    assert forall|i: int| 0 <= i < whole.len() implies whole[i] != '\u{3a3}' by {
        assert(i < a.len() ==> a.contains(whole[i]));
        assert(i > a.len() ==> b.contains(b[i - a.len() - 1]));
    }
    text::lemma_lower_chars_in_two(a.push('+'), b);
    assert(a.push('+').drop_last() =~= a);
    assert(text::lower_chars(a.push('+')) =~= la.push('+'));
    lemma_without_aliases_in_two(la, lb);
    text::lemma_pieces_of_two(without_aliases(la), without_aliases(lb), '+');
    lemma_tokens_untrimmed(a);
    lemma_tokens_untrimmed(b);
    lemma_tokens_untrimmed(whole);
    assert(binding::hotkey_tokens(whole) =~= binding::hotkey_tokens(a) + binding::hotkey_tokens(b));
}

/// Replacing the aliases goes by itself on both sides of a plus sign.
proof fn lemma_without_aliases_in_two(a: Seq<char>, b: Seq<char>)
    ensures
        without_aliases(a.push('+') + b) == without_aliases(a).push('+') + without_aliases(b),
{
    normal_form::lemma_alias_words();
    let a1 = text::replaced(a, "control"@, "ctrl"@);
    let b1 = text::replaced(b, "control"@, "ctrl"@);
    let a2 = text::replaced(a1, "command"@, "super"@);
    let b2 = text::replaced(b1, "command"@, "super"@);
    let a3 = text::replaced(a2, "meta"@, "super"@);
    let b3 = text::replaced(b2, "meta"@, "super"@);
    text::lemma_replaced_in_two(a, '+', b, "control"@, "ctrl"@);
    text::lemma_replaced_in_two(a1, '+', b1, "command"@, "super"@);
    text::lemma_replaced_in_two(a2, '+', b2, "meta"@, "super"@);
    text::lemma_replaced_in_two(a3, '+', b3, "win"@, "super"@);
}

/// How many of the tokens name no modifier.
spec fn mains(tokens: Seq<Seq<char>>) -> nat
    decreases tokens.len(),
{
    if tokens.len() == 0 {
        0
    } else {
        mains(tokens.drop_last()) + if binding::modifier_word(tokens.last()) {
            0nat
        } else {
            1nat
        }
    }
}

/// Counting the tokens that name no modifier goes list by list.
proof fn lemma_mains_in_two(a: Seq<Seq<char>>, b: Seq<Seq<char>>)
    ensures
        mains(a + b) == mains(a) + mains(b),
    decreases b.len(),
{
    if b.len() > 0 {
        lemma_mains_in_two(a, b.drop_last());
        assert((a + b).drop_last() =~= a + b.drop_last());
        assert((a + b).last() == b.last());
    } else {
        assert(a + b =~= a);
    }
}

/// The count says whether all tokens, or all but one, name modifiers.
proof fn lemma_mains(tokens: Seq<Seq<char>>)
    ensures
        mains(tokens) == 0 <==> !binding::some_main(tokens),
        mains(tokens) <= 1 <==> at_most_one_main(tokens),
    decreases tokens.len(),
{
    if tokens.len() > 0 {
        let before = tokens.drop_last();
        let n = before.len() as int;
        lemma_mains(before);
        assert(tokens[n] == tokens.last());
        assert(forall|i: int| 0 <= i < n ==> #[trigger] before[i] == tokens[i]);
        assert(forall|i: int| 0 <= i < n ==> #[trigger] tokens[i] == before[i]);
    }
}

/// How many tokens of the parts, taken one by one, name no modifier.
spec fn mains_of_parts(parts: Seq<Seq<char>>) -> nat
    decreases parts.len(),
{
    if parts.len() == 0 {
        0
    } else {
        mains_of_parts(parts.drop_last()) + mains(binding::hotkey_tokens(parts.last()))
    }
}

/// Counting goes list by list here too.
proof fn lemma_mains_of_parts_in_two(a: Seq<Seq<char>>, b: Seq<Seq<char>>)
    ensures
        mains_of_parts(a + b) == mains_of_parts(a) + mains_of_parts(b),
    decreases b.len(),
{
    if b.len() > 0 {
        lemma_mains_of_parts_in_two(a, b.drop_last());
        assert((a + b).drop_last() =~= a + b.drop_last());
        assert((a + b).last() == b.last());
    } else {
        assert(a + b =~= a);
    }
}

/// Taking out one part takes out what its tokens count.
proof fn lemma_mains_of_parts_without(parts: Seq<Seq<char>>, i: int)
    requires
        0 <= i < parts.len(),
    ensures
        mains_of_parts(parts) == mains_of_parts(parts.remove(i)) + mains(
            binding::hotkey_tokens(parts[i]),
        ),
{
    let a = parts.take(i);
    let b = parts.skip(i + 1);
    let one = seq![parts[i]];
    lemma_mains_of_parts_in_two(a + one, b);
    lemma_mains_of_parts_in_two(a, one);
    lemma_mains_of_parts_in_two(a, b);
    assert(parts =~= a + one + b);
    assert(parts.remove(i) =~= a + b);
    assert(one.drop_last() =~= Seq::<Seq<char>>::empty());
    assert(mains_of_parts(one.drop_last()) == 0);
    assert(mains_of_parts(one) == mains(binding::hotkey_tokens(parts[i])));
}

/// The count does not depend on the order of the parts.
proof fn lemma_mains_of_reordered_parts(a: Seq<Seq<char>>, b: Seq<Seq<char>>)
    requires
        a.to_multiset() == b.to_multiset(),
    ensures
        mains_of_parts(a) == mains_of_parts(b),
    decreases a.len(),
{
    broadcast use vstd::seq_lib::group_to_multiset_ensures;

    assert(a.len() == a.to_multiset().len() == b.len());
    if a.len() > 0 {
        let last = a.len() - 1;
        assert(a.contains(a[last]));
        assert(a.to_multiset().count(a[last]) > 0);
        assert(b.contains(a[last]));
        let j = choose|j: int| 0 <= j < b.len() && b[j] == a[last];
        lemma_mains_of_reordered_parts(a.remove(last), b.remove(j));
        lemma_mains_of_parts_without(a, last);
        lemma_mains_of_parts_without(b, j);
    }
}

/// The tokens of a hotkey text are the tokens of its parts.
proof fn lemma_tokens_of_parts(hotkey: Seq<char>)
    requires
        !text::has_capital_sigma(hotkey),
    ensures
        mains(binding::hotkey_tokens(hotkey)) == mains_of_parts(hotkey_parts(hotkey)),
        forall|token: Seq<char>| #[trigger]
            binding::hotkey_tokens(hotkey).contains(token) <==> exists|i: int|
                0 <= i < hotkey_parts(hotkey).len() && binding::hotkey_tokens(
                    #[trigger] hotkey_parts(hotkey)[i],
                ).contains(token),
    decreases hotkey.len(),
{
    let parts = hotkey_parts(hotkey);
    let tokens = binding::hotkey_tokens(hotkey);
    if hotkey.contains('+') {
        let k = choose|k: int| 0 <= k < hotkey.len() && hotkey[k] == '+';
        let a = hotkey.take(k);
        let b = hotkey.skip(k + 1);
        assert(hotkey =~= a.push('+') + b);
        assert(forall|i: int| 0 <= i < a.len() ==> hotkey.contains(#[trigger] a[i]));
        assert(forall|i: int| 0 <= i < b.len() ==> #[trigger] b[i] == hotkey[k + 1 + i]);
        let pa = hotkey_parts(a);
        let pb = hotkey_parts(b);
        let ta = binding::hotkey_tokens(a);
        let tb = binding::hotkey_tokens(b);
        text::lemma_pieces_of_two(a, b, '+');
        law_tokens_go_part_by_part(a, b);
        lemma_tokens_of_parts(a);
        lemma_tokens_of_parts(b);
        lemma_mains_in_two(ta, tb);
        lemma_mains_of_parts_in_two(pa, pb);
        assert forall|token: Seq<char>| #[trigger] tokens.contains(token) <==> exists|i: int|
            0 <= i < parts.len() && binding::hotkey_tokens(#[trigger] parts[i]).contains(token) by {
            if tokens.contains(token) {
                let i = choose|i: int| 0 <= i < tokens.len() && tokens[i] == token;
                if i < ta.len() {
                    assert(ta[i] == token);
                    assert(ta.contains(token));
                    let j = choose|j: int|
                        0 <= j < pa.len() && binding::hotkey_tokens(#[trigger] pa[j]).contains(
                            token,
                        );
                    assert(parts[j] == pa[j]);
                } else {
                    assert(tb[i - ta.len()] == token);
                    assert(tb.contains(token));
                    let j = choose|j: int|
                        0 <= j < pb.len() && binding::hotkey_tokens(#[trigger] pb[j]).contains(
                            token,
                        );
                    assert(parts[pa.len() + j] == pb[j]);
                }
            }
            if exists|i: int|
                0 <= i < parts.len() && binding::hotkey_tokens(#[trigger] parts[i]).contains(
                    token,
                ) {
                let i = choose|i: int|
                    0 <= i < parts.len() && binding::hotkey_tokens(#[trigger] parts[i]).contains(
                        token,
                    );
                if i < pa.len() {
                    assert(parts[i] == pa[i]);
                    assert(ta.contains(token));
                    let j = choose|j: int| 0 <= j < ta.len() && ta[j] == token;
                    assert(tokens[j] == token);
                } else {
                    assert(parts[i] == pb[i - pa.len()]);
                    assert(tb.contains(token));
                    let j = choose|j: int| 0 <= j < tb.len() && tb[j] == token;
                    assert(tokens[ta.len() + j] == token);
                }
            }
        }
    } else {
        text::lemma_pieces_of_one(hotkey, '+');
        assert(parts =~= seq![hotkey]);
        assert(parts[0] == hotkey);
        assert(parts.drop_last() =~= Seq::<Seq<char>>::empty());
        assert(mains_of_parts(parts.drop_last()) == 0);
    }
}

/// Texts that share their parts share their tokens, and the one holds a capital sigma if and only
/// if the other does.
proof fn lemma_tokens_of_same_parts(a: Seq<char>, b: Seq<char>)
    requires
        !text::has_capital_sigma(a),
        same_members(hotkey_parts(a), hotkey_parts(b)),
    ensures
        !text::has_capital_sigma(b),
        same_members(binding::hotkey_tokens(a), binding::hotkey_tokens(b)),
{
    let pa = hotkey_parts(a);
    let pb = hotkey_parts(b);
    let ta = binding::hotkey_tokens(a);
    let tb = binding::hotkey_tokens(b);
    let sigma = '\u{3a3}';
    text::lemma_characters_of_pieces(a, '+', sigma);
    text::lemma_characters_of_pieces(b, '+', sigma);
    if b.contains(sigma) {
        let i = choose|i: int| 0 <= i < pb.len() && (#[trigger] pb[i]).contains(sigma);
        assert(pa.contains(pb[i]));
        let j = choose|j: int| 0 <= j < pa.len() && pa[j] == pb[i];
        assert(pa[j].contains(sigma));
    }
    lemma_tokens_of_parts(a);
    lemma_tokens_of_parts(b);
    assert forall|i: int| 0 <= i < ta.len() implies tb.contains(#[trigger] ta[i]) by {
        let token = ta[i];
        assert(ta.contains(token));
        let j = choose|j: int|
            0 <= j < pa.len() && binding::hotkey_tokens(#[trigger] pa[j]).contains(token);
        assert(pb.contains(pa[j]));
        let k = choose|k: int| 0 <= k < pb.len() && pb[k] == pa[j];
        assert(binding::hotkey_tokens(pb[k]).contains(token));
    }
    assert forall|i: int| 0 <= i < tb.len() implies ta.contains(#[trigger] tb[i]) by {
        let token = tb[i];
        assert(tb.contains(token));
        let j = choose|j: int|
            0 <= j < pb.len() && binding::hotkey_tokens(#[trigger] pb[j]).contains(token);
        assert(pa.contains(pb[j]));
        let k = choose|k: int| 0 <= k < pa.len() && pa[k] == pb[j];
        assert(binding::hotkey_tokens(pa[k]).contains(token));
    }
}

/// Two hotkey texts with the same parts, in any order and with modifiers repeated or not, stand for
/// the same binding: only one token of the second may name no modifier. A text with a capital sigma
/// is left out here; `parse_hotkey_binding` accepts none.
pub proof fn law_order_and_repeats_of_parts_do_not_matter(a: Seq<char>, b: Seq<char>)
    requires
        !text::has_capital_sigma(a),
        same_members(hotkey_parts(a), hotkey_parts(b)),
        at_most_one_main(binding::hotkey_tokens(b)),
        binding::parsed_hotkey(a) is Ok,
    ensures
        binding::parsed_hotkey(b) == binding::parsed_hotkey(a),
{
    lemma_tokens_of_same_parts(a, b);
    law_order_and_repeats_of_tokens_do_not_matter(a, b);
}

/// Whether `b` is made of the parts of `a`, in any order.
pub open spec fn reordered(a: Seq<char>, b: Seq<char>) -> bool {
    hotkey_parts(a).to_multiset() == hotkey_parts(b).to_multiset()
}

/// Whether `b` is `a` with one of its modifiers repeated, anywhere in it.
pub open spec fn repeats_modifier(a: Seq<char>, b: Seq<char>) -> bool {
    exists|from: int, at: int|
        {
            &&& 0 <= from < hotkey_parts(a).len()
            &&& binding::modifier_word(binding::normalized(hotkey_parts(a)[from]))
            &&& 0 <= at <= hotkey_parts(a).len()
            &&& hotkey_parts(b) == #[trigger] hotkey_parts(a).insert(at, hotkey_parts(a)[from])
        }
}

/// The order of the parts of a hotkey text does not matter. A text with a capital sigma is left out
/// here; `parse_hotkey_binding` accepts none.
pub proof fn law_order_of_parts_does_not_matter(a: Seq<char>, b: Seq<char>)
    requires
        !text::has_capital_sigma(a),
        reordered(a, b),
        binding::parsed_hotkey(a) is Ok,
    ensures
        binding::parsed_hotkey(b) == binding::parsed_hotkey(a),
{
    broadcast use vstd::seq_lib::group_to_multiset_ensures;

    let pa = hotkey_parts(a);
    let pb = hotkey_parts(b);
    assert forall|i: int| 0 <= i < pa.len() implies pb.contains(#[trigger] pa[i]) by {
        assert(pa.contains(pa[i]));
        assert(pa.to_multiset().count(pa[i]) > 0);
    }
    assert forall|i: int| 0 <= i < pb.len() implies pa.contains(#[trigger] pb[i]) by {
        assert(pb.contains(pb[i]));
        assert(pb.to_multiset().count(pb[i]) > 0);
    }
    lemma_tokens_of_same_parts(a, b);
    lemma_tokens_of_parts(a);
    lemma_tokens_of_parts(b);
    lemma_mains_of_reordered_parts(pa, pb);
    binding::law_accepted_hotkeys(a);
    lemma_mains(binding::hotkey_tokens(a));
    lemma_mains(binding::hotkey_tokens(b));
    law_order_and_repeats_of_parts_do_not_matter(a, b);
}

/// Repeating a modifier of a hotkey text, anywhere in it, changes nothing. A text with a capital
/// sigma is left out here; `parse_hotkey_binding` accepts none.
pub proof fn law_repeated_modifier_changes_nothing(a: Seq<char>, b: Seq<char>)
    requires
        !text::has_capital_sigma(a),
        repeats_modifier(a, b),
        binding::parsed_hotkey(a) is Ok,
    ensures
        binding::parsed_hotkey(b) == binding::parsed_hotkey(a),
{
    let pa = hotkey_parts(a);
    let pb = hotkey_parts(b);
    let (from, at) = choose|from: int, at: int|
        {
            &&& 0 <= from < pa.len()
            &&& binding::modifier_word(binding::normalized(pa[from]))
            &&& 0 <= at <= pa.len()
            &&& pb == #[trigger] pa.insert(at, pa[from])
        };
    let part = pa[from];
    let word = binding::normalized(part);
    assert forall|i: int| 0 <= i < pa.len() implies pb.contains(#[trigger] pa[i]) by {
        assert(pb[if i < at { i } else { i + 1 }] == pa[i]);
    }
    assert forall|i: int| 0 <= i < pb.len() implies pa.contains(#[trigger] pb[i]) by {
        assert(pb[i] == pa[if i < at { i } else if i == at { from } else { i - 1 }]);
    }
    binding::lemma_modifier_words(word);
    text::lemma_trimmed_already(word);
    text::lemma_pieces_of_one(word, '+');
    assert(binding::hotkey_tokens(part) =~= seq![word]);
    lemma_mains(binding::hotkey_tokens(part));
    assert(!binding::some_main(binding::hotkey_tokens(part)));
    lemma_tokens_of_same_parts(a, b);
    lemma_tokens_of_parts(a);
    lemma_tokens_of_parts(b);
    lemma_mains_of_parts_without(pb, at);
    assert(pb.remove(at) =~= pa);
    binding::law_accepted_hotkeys(a);
    lemma_mains(binding::hotkey_tokens(a));
    lemma_mains(binding::hotkey_tokens(b));
    law_order_and_repeats_of_parts_do_not_matter(a, b);
}

} // verus!
