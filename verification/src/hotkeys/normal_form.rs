//! The normal form of hotkey texts: it holds no alias, and it is all that parsing goes by.
use crate::hotkeys::binding;
use crate::text;
use vstd::prelude::*;

verus! {

/// Whether `word` occurs nowhere in `s`.
pub open spec fn lacks_word(s: Seq<char>, word: Seq<char>) -> bool {
    forall|i: int| !#[trigger] text::occurs_at(s, word, i)
}

/// Whether none of the aliases that normalization replaces occurs in `s`.
pub open spec fn lacks_aliases(s: Seq<char>) -> bool {
    &&& lacks_word(s, "control"@)
    &&& lacks_word(s, "command"@)
    &&& lacks_word(s, "meta"@)
    &&& lacks_word(s, "win"@)
}

/// Replacing an alias brings none of them in.
proof fn lemma_replaced_lacks_word(s: Seq<char>, from: Seq<char>, to: Seq<char>, word: Seq<char>)
    requires
        text::clashes(word, to),
        to.len() > 0,
        word.len() > 0,
        word == from || lacks_word(s, word),
    ensures
        lacks_word(text::replaced(s, from, to), word),
{
    assert forall|i: int| !#[trigger] text::occurs_at(text::replaced(s, from, to), word, i) by {
        text::lemma_replaced_lacks(s, from, to, word, i);
    }
}

/// No alias can arise where another was replaced.
pub proof fn lemma_aliases_clash()
    ensures
        text::clashes("control"@, "ctrl"@),
        text::clashes("control"@, "super"@),
        text::clashes("command"@, "super"@),
        text::clashes("meta"@, "super"@),
        text::clashes("win"@, "super"@),
        "control"@.len() > 0 && "command"@.len() > 0 && "meta"@.len() > 0 && "win"@.len() > 0,
        "ctrl"@.len() > 0 && "super"@.len() > 0,
{
    reveal_with_fuel(text::lacks_from, 9);
    reveal_strlit("control");
    reveal_strlit("command");
    reveal_strlit("meta");
    reveal_strlit("win");
    reveal_strlit("ctrl");
    reveal_strlit("super");
    text::lemma_lacks("super"@, 'c');
    text::lemma_lacks("super"@, 'm');
    text::lemma_lacks("super"@, 'w');
    text::lemma_lacks("control"@, 's');
    text::lemma_lacks("command"@, 's');
    text::lemma_lacks("meta"@, 's');
    text::lemma_lacks("win"@, 's');
    text::lemma_clashes("control"@, "super"@);
    text::lemma_clashes("command"@, "super"@);
    text::lemma_clashes("meta"@, "super"@);
    text::lemma_clashes("win"@, "super"@);
    let word = "control"@;
    let block = "ctrl"@;
    assert(text::lacks_from(word, 'c', 1));
    assert(text::lacks_from(block, 'c', 1));
    assert forall|shift: int|
        -word.len() < shift < block.len() implies #[trigger] text::clashes_at(word, block, shift) by {
        if shift > 0 {
            text::lemma_lacks_at(block, 'c', 1, shift);
            assert(word[0] != block[shift + 0]);
        } else if shift == 0 {
            assert(word[1] != block[shift + 1]);
        } else {
            text::lemma_lacks_at(word, 'c', 1, -shift);
            assert(word[-shift] != block[shift + (-shift)]);
        }
    }
}

/// No alias of a modifier is left in a normal form.
pub proof fn law_normal_form_lacks_aliases(hotkey: Seq<char>)
    ensures
        lacks_aliases(binding::normalized(hotkey)),
{
    lemma_aliases_clash();
    let lower = text::lowercase(text::trimmed(hotkey));
    let ctrl = text::replaced(lower, "control"@, "ctrl"@);
    let command = text::replaced(ctrl, "command"@, "super"@);
    let meta = text::replaced(command, "meta"@, "super"@);
    lemma_replaced_lacks_word(lower, "control"@, "ctrl"@, "control"@);
    lemma_replaced_lacks_word(ctrl, "command"@, "super"@, "control"@);
    lemma_replaced_lacks_word(ctrl, "command"@, "super"@, "command"@);
    lemma_replaced_lacks_word(command, "meta"@, "super"@, "control"@);
    lemma_replaced_lacks_word(command, "meta"@, "super"@, "command"@);
    lemma_replaced_lacks_word(command, "meta"@, "super"@, "meta"@);
    lemma_replaced_lacks_word(meta, "win"@, "super"@, "control"@);
    lemma_replaced_lacks_word(meta, "win"@, "super"@, "command"@);
    lemma_replaced_lacks_word(meta, "win"@, "super"@, "meta"@);
    lemma_replaced_lacks_word(meta, "win"@, "super"@, "win"@);
}

/// The normal form of any text that Unicode lowercasing and trimming leave alone is its own normal
/// form.
pub proof fn law_normal_form_is_stable(hotkey: Seq<char>)
    requires
        text::trimmed(binding::normalized(hotkey)) == binding::normalized(hotkey),
        text::lowercase(binding::normalized(hotkey)) == binding::normalized(hotkey),
    ensures
        binding::normalized(binding::normalized(hotkey)) == binding::normalized(hotkey),
{
    let n = binding::normalized(hotkey);
    law_normal_form_lacks_aliases(hotkey);
    text::lemma_replaced_absent(n, "control"@, "ctrl"@);
    text::lemma_replaced_absent(n, "command"@, "super"@);
    text::lemma_replaced_absent(n, "meta"@, "super"@);
    text::lemma_replaced_absent(n, "win"@, "super"@);
}

/// The normal form of a text is trimmed and in lowercase, and normalizing it again changes nothing,
/// if the lowercase form of the trimmed text is trimmed and holds nothing that lowercasing would
/// change.
pub proof fn lemma_normal_form_of_lower(hotkey: Seq<char>)
    requires
        ({
            let lower = text::lowercase(text::trimmed(hotkey));
            &&& text::all_lower(lower)
            &&& lower.len() > 0 ==> !text::white_space(lower[0]) && !text::white_space(lower.last())
        }),
    ensures
        text::all_lower(binding::normalized(hotkey)),
        text::trimmed(binding::normalized(hotkey)) == binding::normalized(hotkey),
        text::lowercase(binding::normalized(hotkey)) == binding::normalized(hotkey),
        binding::normalized(binding::normalized(hotkey)) == binding::normalized(hotkey),
{
    let good = |c: char| text::lower_char(c) == seq![c] && c != '\u{3a3}';
    let end = |c: char| !text::white_space(c);
    let lower = text::lowercase(text::trimmed(hotkey));
    let ctrl = text::replaced(lower, "control"@, "ctrl"@);
    let command = text::replaced(ctrl, "command"@, "super"@);
    let meta = text::replaced(command, "meta"@, "super"@);
    let win = text::replaced(meta, "win"@, "super"@);
    assert forall|i: int| 0 <= i < lower.len() implies good(#[trigger] lower[i]) by {
        assert(text::lower_char(lower[i]) == seq![lower[i]]);
    }
    lemma_alias_words();
    text::lemma_replaced_keeps(lower, "control"@, "ctrl"@, good, end);
    text::lemma_replaced_keeps(ctrl, "command"@, "super"@, good, end);
    text::lemma_replaced_keeps(command, "meta"@, "super"@, good, end);
    text::lemma_replaced_keeps(meta, "win"@, "super"@, good, end);
    assert forall|i: int| 0 <= i < win.len() implies #[trigger] text::lower_char(win[i])
        == seq![win[i]] && win[i] != '\u{3a3}' by {
        assert(good(win[i]));
    }
    if win.len() > 0 {
        assert(end(lower[0]) && end(lower.last()));
        assert(end(win[0]) && end(win.last()));
        text::lemma_trimmed_already(win);
    }
    text::lemma_lower_already(win);
    law_normal_form_is_stable(hotkey);
}

/// The normal form of an ASCII text is ASCII, trimmed and in lowercase, and normalizing it again
/// changes nothing.
pub proof fn law_normalizing_twice_is_normalizing_once(hotkey: Seq<char>)
    requires
        text::all_ascii(hotkey),
    ensures
        text::all_ascii(binding::normalized(hotkey)),
        text::trimmed(binding::normalized(hotkey)) == binding::normalized(hotkey),
        text::lowercase(binding::normalized(hotkey)) == binding::normalized(hotkey),
        binding::normalized(binding::normalized(hotkey)) == binding::normalized(hotkey),
{
    let good = |c: char| text::ascii(c);
    let trimmed = text::trimmed(hotkey);
    let lower = text::lowercase(trimmed);
    let ctrl = text::replaced(lower, "control"@, "ctrl"@);
    let command = text::replaced(ctrl, "command"@, "super"@);
    let meta = text::replaced(command, "meta"@, "super"@);
    let win = text::replaced(meta, "win"@, "super"@);
    text::lemma_trimmed(hotkey);
    assert forall|i: int| 0 <= i < trimmed.len() implies text::ascii(#[trigger] trimmed[i]) by {
        let j = choose|j: int| 0 <= j < hotkey.len() && hotkey[j] == trimmed[i];
        assert(text::ascii(hotkey[j]));
    }
    assert forall|i: int| 0 <= i < lower.len() implies good(#[trigger] lower[i]) && !('A'
        <= lower[i] <= 'Z') && text::white_space(lower[i]) == text::white_space(trimmed[i]) by {
        assert(text::ascii(trimmed[i]));
        assert(lower[i] == text::ascii_lower(trimmed[i]));
    }
    assert forall|i: int| 0 <= i < lower.len() implies #[trigger] text::lower_char(lower[i])
        == seq![lower[i]] && lower[i] != '\u{3a3}' by {
        assert(good(lower[i]));
    }
    lemma_normal_form_of_lower(hotkey);
    lemma_alias_words();
    text::lemma_replaced_keeps(lower, "control"@, "ctrl"@, good, good);
    text::lemma_replaced_keeps(ctrl, "command"@, "super"@, good, good);
    text::lemma_replaced_keeps(command, "meta"@, "super"@, good, good);
    text::lemma_replaced_keeps(meta, "win"@, "super"@, good, good);
    assert forall|i: int| 0 <= i < win.len() implies text::ascii(#[trigger] win[i]) by {
        assert(good(win[i]));
    }
}

/// Whether `s` is made of small letters.
pub open spec fn small_letters(s: Seq<char>) -> bool {
    s.len() > 0 && forall|i: int| 0 <= i < s.len() ==> 'a' <= #[trigger] s[i] <= 'z'
}

/// The aliases and their replacements are made of small letters.
pub proof fn lemma_alias_words()
    ensures
        small_letters("control"@),
        small_letters("command"@),
        small_letters("meta"@),
        small_letters("win"@),
        small_letters("ctrl"@),
        small_letters("super"@),
{
    reveal_strlit("control");
    reveal_strlit("command");
    reveal_strlit("meta");
    reveal_strlit("win");
    reveal_strlit("ctrl");
    reveal_strlit("super");
    assert("control"@ =~= seq!['c', 'o', 'n', 't', 'r', 'o', 'l']);
    assert("command"@ =~= seq!['c', 'o', 'm', 'm', 'a', 'n', 'd']);
    assert("meta"@ =~= seq!['m', 'e', 't', 'a']);
    assert("win"@ =~= seq!['w', 'i', 'n']);
    assert("ctrl"@ =~= seq!['c', 't', 'r', 'l']);
    assert("super"@ =~= seq!['s', 'u', 'p', 'e', 'r']);
}

/// Replacing the aliases neither drops nor brings in a character that is no small letter.
pub proof fn lemma_normal_form_keeps(hotkey: Seq<char>, c: char)
    requires
        !('a' <= c <= 'z'),
    ensures
        binding::normalized(hotkey).contains(c) <==> text::lowercase(
            text::trimmed(hotkey),
        ).contains(c),
{
    lemma_alias_words();
    let lower = text::lowercase(text::trimmed(hotkey));
    let ctrl = text::replaced(lower, "control"@, "ctrl"@);
    let command = text::replaced(ctrl, "command"@, "super"@);
    let meta = text::replaced(command, "meta"@, "super"@);
    if lower.contains(c) {
        text::lemma_replaced_keeps_in(lower, "control"@, "ctrl"@, c);
        text::lemma_replaced_keeps_in(ctrl, "command"@, "super"@, c);
        text::lemma_replaced_keeps_in(command, "meta"@, "super"@, c);
        text::lemma_replaced_keeps_in(meta, "win"@, "super"@, c);
    } else {
        text::lemma_replaced_keeps_out(lower, "control"@, "ctrl"@, c);
        text::lemma_replaced_keeps_out(ctrl, "command"@, "super"@, c);
        text::lemma_replaced_keeps_out(command, "meta"@, "super"@, c);
        text::lemma_replaced_keeps_out(meta, "win"@, "super"@, c);
    }
}

/// What tokens say does not depend on the text that they were taken from; only the messages that
/// refuse them do.
proof fn lemma_tokens_decide(tokens: Seq<Seq<char>>, a: Seq<char>, b: Seq<char>)
    ensures
        binding::read_tokens(tokens, a) is Ok <==> binding::read_tokens(tokens, b) is Ok,
        binding::read_tokens(tokens, a) is Ok ==> binding::read_tokens(tokens, a)
            == binding::read_tokens(tokens, b),
    decreases tokens.len(),
{
    if tokens.len() > 0 {
        lemma_tokens_decide(tokens.drop_last(), a, b);
    }
}

/// Two hotkey texts with one normal form stand for one binding, or are both refused.
pub proof fn law_normal_form_decides(a: Seq<char>, b: Seq<char>)
    requires
        binding::normalized(a) == binding::normalized(b),
    ensures
        binding::parsed_hotkey(a) is Ok <==> binding::parsed_hotkey(b) is Ok,
        binding::parsed_hotkey(a) is Ok ==> binding::parsed_hotkey(a) == binding::parsed_hotkey(b),
{
    lemma_tokens_decide(binding::hotkey_tokens(a), a, b);
}

/// White space around a hotkey text changes nothing of its normal form, so nothing of what the text
/// stands for.
pub proof fn law_outer_space_does_not_matter(hotkey: Seq<char>)
    ensures
        binding::normalized(text::trimmed(hotkey)) == binding::normalized(hotkey),
        binding::parsed_hotkey(text::trimmed(hotkey)) is Ok <==> binding::parsed_hotkey(
            hotkey,
        ) is Ok,
        binding::parsed_hotkey(hotkey) is Ok ==> binding::parsed_hotkey(text::trimmed(hotkey))
            == binding::parsed_hotkey(hotkey),
{
    text::lemma_trimmed_twice(hotkey);
    law_normal_form_decides(text::trimmed(hotkey), hotkey);
}

/// Lowercasing an ASCII text changes no white space, so it may go before trimming.
pub proof fn lemma_lowercase_and_trim(s: Seq<char>)
    requires
        text::all_ascii(s),
    ensures
        text::trimmed(text::ascii_lowercase(s)) == text::ascii_lowercase(text::trimmed(s)),
{
    text::lemma_trimmed_start_of_lowercase(s);
    text::lemma_trimmed_start(s);
    assert(text::all_ascii(text::trimmed_start(s))) by {
        let start = text::trimmed_start(s);
        assert forall|i: int| 0 <= i < start.len() implies text::ascii(#[trigger] start[i]) by {
            let j = choose|j: int| 0 <= j < s.len() && s[j] == start[i];
            assert(text::ascii(s[j]));
        }
    }
    text::lemma_trimmed_end_of_lowercase(text::trimmed_start(s));
}

/// Neither capital letters nor white space around it change what an ASCII hotkey text stands for.
pub proof fn law_case_and_outer_space_do_not_matter(hotkey: Seq<char>)
    requires
        text::all_ascii(hotkey),
    ensures
        ({
            let other = text::ascii_lowercase(text::trimmed(hotkey));
            &&& binding::parsed_hotkey(other) is Ok <==> binding::parsed_hotkey(hotkey) is Ok
            &&& binding::parsed_hotkey(hotkey) is Ok ==> binding::parsed_hotkey(other)
                == binding::parsed_hotkey(hotkey)
        }),
{
    let trimmed = text::trimmed(hotkey);
    let other = text::ascii_lowercase(trimmed);
    text::lemma_trimmed(hotkey);
    assert forall|i: int| 0 <= i < trimmed.len() implies text::ascii(#[trigger] trimmed[i]) by {
        let j = choose|j: int| 0 <= j < hotkey.len() && hotkey[j] == trimmed[i];
        assert(text::ascii(hotkey[j]));
    }
    text::lemma_trimmed_twice(hotkey);
    lemma_lowercase_and_trim(trimmed);
    assert forall|i: int| 0 <= i < other.len() implies text::ascii(#[trigger] other[i]) && !('A'
        <= other[i] <= 'Z') by {
        assert(text::ascii(trimmed[i]));
    }
    text::lemma_lowercase_already(other);
    law_normal_form_decides(other, hotkey);
}

} // verus!
