//! The aliases of modifiers: wherever one stands in a text, its replacement may stand as well.
use crate::hotkeys::binding;
use crate::hotkeys::normal_form;
use crate::text;
use vstd::prelude::*;

verus! {

/// Replacing goes by itself on both sides of a place that no occurrence crosses.
proof fn lemma_replaced_on_both_sides(
    a: Seq<char>,
    b: Seq<char>,
    from: Seq<char>,
    to: Seq<char>,
)
    requires
        forall|i: int|
            a.len() - from.len() < i < a.len() ==> !#[trigger] text::occurs_at(a + b, from, i),
    ensures
        text::replaced(a + b, from, to) == text::replaced(a, from, to) + text::replaced(
            b,
            from,
            to,
        ),
    decreases a.len(),
{
    let whole = a + b;
    let n = from.len() as int;
    if a.len() == 0 {
        assert(whole =~= b);
        assert(text::replaced(a, from, to) + text::replaced(b, from, to) =~= text::replaced(
            b,
            from,
            to,
        ));
    } else {
        let found = n > 0 && text::occurs_at(whole, from, 0);
        let k = if found {
            n
        } else {
            1
        };
        if found {
            assert(n <= a.len());
            assert(whole.subrange(0, n) =~= a.subrange(0, n));
        } else if n > 0 && text::occurs_at(a, from, 0) {
            assert(whole.subrange(0, n) =~= a.subrange(0, n));
        }
        let rest = a.skip(k);
        assert(whole.skip(k) =~= rest + b);
        assert(whole.drop_first() =~= whole.skip(1) && a.drop_first() =~= a.skip(1));
        assert forall|i: int| rest.len() - n < i < rest.len() implies !#[trigger] text::occurs_at(
            rest + b,
            from,
            i,
        ) by {
            if text::occurs_at(rest + b, from, i) {
                assert(whole.subrange(i + k, i + k + n) =~= (rest + b).subrange(i, i + n));
                assert(text::occurs_at(whole, from, i + k));
            }
        }
        lemma_replaced_on_both_sides(rest, b, from, to);
        let front = if found {
            to
        } else {
            seq![a[0]]
        };
        assert(front + (text::replaced(rest, from, to) + text::replaced(b, from, to)) =~= front
            + text::replaced(rest, from, to) + text::replaced(b, from, to));
    }
}

/// Replacing leaves alone what no occurrence touches.
proof fn lemma_replaced_behind_block(
    block: Seq<char>,
    b: Seq<char>,
    from: Seq<char>,
    to: Seq<char>,
)
    requires
        forall|i: int| 0 <= i < block.len() ==> !#[trigger] text::occurs_at(block + b, from, i),
    ensures
        text::replaced(block + b, from, to) == block + text::replaced(b, from, to),
    decreases block.len(),
{
    let whole = block + b;
    if block.len() == 0 {
        assert(whole =~= b);
        assert(block + text::replaced(b, from, to) =~= text::replaced(b, from, to));
    } else {
        let rest = block.drop_first();
        assert(!text::occurs_at(whole, from, 0));
        assert(whole.drop_first() =~= rest + b);
        assert forall|i: int| 0 <= i < rest.len() implies !#[trigger] text::occurs_at(
            rest + b,
            from,
            i,
        ) by {
            if text::occurs_at(rest + b, from, i) {
                assert(whole.subrange(i + 1, i + 1 + from.len()) =~= (rest + b).subrange(
                    i,
                    i + from.len(),
                ));
                assert(text::occurs_at(whole, from, i + 1));
            }
        }
        lemma_replaced_behind_block(rest, b, from, to);
        assert(seq![whole[0]] + (rest + text::replaced(b, from, to)) =~= block + text::replaced(
            b,
            from,
            to,
        ));
    }
}

/// A word that clashes with a block stands nowhere in its way.
proof fn lemma_nothing_over_block(
    a: Seq<char>,
    block: Seq<char>,
    b: Seq<char>,
    word: Seq<char>,
    i: int,
)
    requires
        a.len() - word.len() < i < a.len() + block.len(),
        text::clashes_at(word, block, i - a.len()),
    ensures
        !text::occurs_at(a + block + b, word, i),
{
    let whole = a + block + b;
    if text::occurs_at(whole, word, i) {
        let shift = i - a.len();
        let k = choose|k: int|
            0 <= k < word.len() && 0 <= shift + k < block.len() && #[trigger] word[k] != block[shift
                + k];
        assert(whole.subrange(i, i + word.len())[k] == whole[i + k]);
        assert(whole[i + k] == block[shift + k]);
    }
}

/// Replacing a word goes by itself on both sides of a block that it clashes with.
proof fn lemma_replaced_around_block(
    a: Seq<char>,
    block: Seq<char>,
    b: Seq<char>,
    from: Seq<char>,
    to: Seq<char>,
)
    requires
        from.len() > 0,
        block.len() > 0,
        text::clashes(from, block),
    ensures
        text::replaced(a + block + b, from, to) == text::replaced(a, from, to) + block
            + text::replaced(b, from, to),
{
    let behind = block + b;
    assert(a + behind =~= a + block + b);
    assert forall|i: int| a.len() - from.len() < i < a.len() implies !#[trigger] text::occurs_at(
        a + behind,
        from,
        i,
    ) by {
        assert(text::clashes_at(from, block, i - a.len()));
        lemma_nothing_over_block(a, block, b, from, i);
    }
    assert forall|i: int| 0 <= i < block.len() implies !#[trigger] text::occurs_at(
        behind,
        from,
        i,
    ) by {
        assert(text::clashes_at(from, block, i));
        let none = Seq::<char>::empty();
        lemma_nothing_over_block(none, block, b, from, i);
        assert(none + block + b =~= behind);
    }
    lemma_replaced_on_both_sides(a, behind, from, to);
    lemma_replaced_behind_block(block, b, from, to);
    assert(text::replaced(a, from, to) + (block + text::replaced(b, from, to)) =~= text::replaced(
        a,
        from,
        to,
    ) + block + text::replaced(b, from, to));
}

/// Replacing a word that holds its first letter once goes by itself on both sides of it.
proof fn lemma_replaced_around_itself(a: Seq<char>, b: Seq<char>, from: Seq<char>, to: Seq<char>)
    requires
        from.len() > 0,
        forall|k: int| 0 < k < from.len() ==> #[trigger] from[k] != from[0],
    ensures
        text::replaced(a + from + b, from, to) == text::replaced(a, from, to) + to + text::replaced(
            b,
            from,
            to,
        ),
{
    let behind = from + b;
    let n = from.len() as int;
    assert(a + behind =~= a + from + b);
    assert forall|i: int| a.len() - n < i < a.len() implies !#[trigger] text::occurs_at(
        a + behind,
        from,
        i,
    ) by {
        let shift = i - a.len();
        assert(from[-shift] != from[shift + (-shift)]);
        lemma_nothing_over_block(a, from, b, from, i);
    }
    lemma_replaced_on_both_sides(a, behind, from, to);
    assert(behind.subrange(0, n) =~= from);
    assert(behind.skip(n) =~= b);
    assert(text::replaced(a, from, to) + (to + text::replaced(b, from, to)) =~= text::replaced(
        a,
        from,
        to,
    ) + to + text::replaced(b, from, to));
}

/// What the aliases clash with, and that each holds its first letter once.
proof fn lemma_alias_letters()
    ensures
        text::clashes("control"@, "command"@),
        text::clashes("control"@, "meta"@),
        text::clashes("control"@, "win"@),
        text::clashes("command"@, "meta"@),
        text::clashes("command"@, "win"@),
        text::clashes("meta"@, "win"@),
        forall|k: int| 0 < k < "control"@.len() ==> #[trigger] "control"@[k] != "control"@[0],
        forall|k: int| 0 < k < "command"@.len() ==> #[trigger] "command"@[k] != "command"@[0],
        forall|k: int| 0 < k < "meta"@.len() ==> #[trigger] "meta"@[k] != "meta"@[0],
        forall|k: int| 0 < k < "win"@.len() ==> #[trigger] "win"@[k] != "win"@[0],
{
    reveal_strlit("control");
    reveal_strlit("command");
    reveal_strlit("meta");
    reveal_strlit("win");
    let control = "control"@;
    let command = "command"@;
    let meta = "meta"@;
    let win = "win"@;
    assert(control =~= seq!['c', 'o', 'n', 't', 'r', 'o', 'l']);
    assert(command =~= seq!['c', 'o', 'm', 'm', 'a', 'n', 'd']);
    assert(meta =~= seq!['m', 'e', 't', 'a']);
    assert(win =~= seq!['w', 'i', 'n']);
    text::lemma_clashes(control, meta);
    text::lemma_clashes(control, win);
    text::lemma_clashes(command, win);
    text::lemma_clashes(meta, win);
    assert forall|shift: int| -control.len() < shift < command.len() implies #[trigger] text::clashes_at(
        control,
        command,
        shift,
    ) by {
        if shift > 0 {
            assert(control[0] != command[shift + 0]);
        } else if shift == 0 {
            assert(control[2] != command[shift + 2]);
        } else {
            assert(control[-shift] != command[shift + (-shift)]);
        }
    }
    assert forall|shift: int| -command.len() < shift < meta.len() implies #[trigger] text::clashes_at(
        command,
        meta,
        shift,
    ) by {
        if shift >= 0 {
            assert(command[0] != meta[shift + 0]);
        } else if shift == -2 || shift == -3 {
            assert(command[1 - shift] != meta[shift + (1 - shift)]);
        } else {
            assert(command[-shift] != meta[shift + (-shift)]);
        }
    }
}

/// Trimming leaves alone what stands between two characters that are no white space.
proof fn lemma_trimmed_around(a: Seq<char>, word: Seq<char>, b: Seq<char>)
    requires
        word.len() > 0,
        !text::white_space(word[0]),
        !text::white_space(word.last()),
    ensures
        text::trimmed(a + word + b) == text::trimmed_start(a) + word + text::trimmed_end(b),
{
    let behind = word + b;
    assert(a + word + b =~= a + behind);
    lemma_trimmed_start_of_two(a, behind);
    let front = text::trimmed_start(a) + word;
    assert(text::trimmed_start(a) + behind =~= front + b);
    assert(front.last() == word.last());
    lemma_trimmed_end_of_two(front, b);
}

proof fn lemma_trimmed_start_of_two(a: Seq<char>, b: Seq<char>)
    requires
        b.len() > 0,
        !text::white_space(b[0]),
    ensures
        text::trimmed_start(a + b) == text::trimmed_start(a) + b,
    decreases a.len(),
{
    if a.len() > 0 {
        assert((a + b)[0] == a[0]);
        assert((a + b).drop_first() =~= a.drop_first() + b);
        lemma_trimmed_start_of_two(a.drop_first(), b);
    } else {
        assert(a + b =~= b);
    }
}

proof fn lemma_trimmed_end_of_two(a: Seq<char>, b: Seq<char>)
    requires
        a.len() > 0,
        !text::white_space(a.last()),
    ensures
        text::trimmed_end(a + b) == a + text::trimmed_end(b),
    decreases b.len(),
{
    if b.len() > 0 {
        assert((a + b).last() == b.last());
        assert((a + b).drop_last() =~= a + b.drop_last());
        lemma_trimmed_end_of_two(a, b.drop_last());
    } else {
        assert(a + b =~= a);
        assert(a + text::trimmed_end(b) =~= a);
    }
}

/// What trimming and lowercasing make of a text around a word of small letters.
proof fn lemma_lower_around(a: Seq<char>, word: Seq<char>, b: Seq<char>)
    requires
        !text::has_capital_sigma(a),
        !text::has_capital_sigma(b),
        normal_form::small_letters(word),
    ensures
        text::lowercase(text::trimmed(a + word + b)) == text::lower_chars(text::trimmed_start(a))
            + word + text::lower_chars(text::trimmed_end(b)),
{
    let whole = a + word + b;
    let front = text::trimmed_start(a);
    let back = text::trimmed_end(b);
    lemma_trimmed_around(a, word, b);
    assert forall|i: int| 0 <= i < whole.len() implies whole[i] != '\u{3a3}' by {
        assert(i < a.len() ==> a.contains(whole[i]));
        assert(i >= a.len() + word.len() ==> b.contains(b[i - a.len() - word.len()]));
        assert(a.len() <= i < a.len() + word.len() ==> whole[i] == word[i - a.len()]);
    }
    text::lemma_trimmed_keeps_out(whole, '\u{3a3}');
    text::lemma_lowercase_by_character(text::trimmed(whole));
    text::lemma_lower_chars_in_two(front + word, back);
    text::lemma_lower_chars_in_two(front, word);
    text::lemma_lowercase_already(word);
    assert(!text::has_capital_sigma(word));
    text::lemma_lowercase_by_character(word);
}

/// An alias may stand for its modifier anywhere in a text, within a word too: the normal form is the
/// same.
pub proof fn law_aliases_are_replaced_anywhere(a: Seq<char>, b: Seq<char>)
    requires
        !text::has_capital_sigma(a),
        !text::has_capital_sigma(b),
    ensures
        binding::normalized(a + "control"@ + b) == binding::normalized(a + "ctrl"@ + b),
        binding::normalized(a + "command"@ + b) == binding::normalized(a + "super"@ + b),
        binding::normalized(a + "meta"@ + b) == binding::normalized(a + "super"@ + b),
        binding::normalized(a + "win"@ + b) == binding::normalized(a + "super"@ + b),
{
    normal_form::lemma_alias_words();
    normal_form::lemma_aliases_clash();
    lemma_alias_letters();
    lemma_lower_around(a, "control"@, b);
    lemma_lower_around(a, "command"@, b);
    lemma_lower_around(a, "meta"@, b);
    lemma_lower_around(a, "win"@, b);
    lemma_lower_around(a, "ctrl"@, b);
    lemma_lower_around(a, "super"@, b);
    let a0 = text::lower_chars(text::trimmed_start(a));
    let b0 = text::lower_chars(text::trimmed_end(b));
    let a1 = text::replaced(a0, "control"@, "ctrl"@);
    let b1 = text::replaced(b0, "control"@, "ctrl"@);
    let a2 = text::replaced(a1, "command"@, "super"@);
    let b2 = text::replaced(b1, "command"@, "super"@);
    let a3 = text::replaced(a2, "meta"@, "super"@);
    let b3 = text::replaced(b2, "meta"@, "super"@);
    lemma_replaced_around_itself(a0, b0, "control"@, "ctrl"@);
    lemma_replaced_around_block(a0, "ctrl"@, b0, "control"@, "ctrl"@);
    lemma_replaced_around_block(a0, "super"@, b0, "control"@, "ctrl"@);
    lemma_replaced_around_block(a0, "command"@, b0, "control"@, "ctrl"@);
    lemma_replaced_around_block(a0, "meta"@, b0, "control"@, "ctrl"@);
    lemma_replaced_around_block(a0, "win"@, b0, "control"@, "ctrl"@);
    lemma_replaced_around_itself(a1, b1, "command"@, "super"@);
    lemma_replaced_around_block(a1, "super"@, b1, "command"@, "super"@);
    lemma_replaced_around_block(a1, "meta"@, b1, "command"@, "super"@);
    lemma_replaced_around_block(a1, "win"@, b1, "command"@, "super"@);
    lemma_replaced_around_itself(a2, b2, "meta"@, "super"@);
    lemma_replaced_around_block(a2, "super"@, b2, "meta"@, "super"@);
    lemma_replaced_around_block(a2, "win"@, b2, "meta"@, "super"@);
    lemma_replaced_around_itself(a3, b3, "win"@, "super"@);
    lemma_replaced_around_block(a3, "super"@, b3, "win"@, "super"@);
}

/// Where no alias stands, normalizing is trimming and lowercasing.
pub proof fn law_other_texts_are_trimmed_and_lowercased(hotkey: Seq<char>)
    requires
        normal_form::lacks_aliases(text::lowercase(text::trimmed(hotkey))),
    ensures
        binding::normalized(hotkey) == text::lowercase(text::trimmed(hotkey)),
{
    let lower = text::lowercase(text::trimmed(hotkey));
    text::lemma_replaced_absent(lower, "control"@, "ctrl"@);
    text::lemma_replaced_absent(lower, "command"@, "super"@);
    text::lemma_replaced_absent(lower, "meta"@, "super"@);
    text::lemma_replaced_absent(lower, "win"@, "super"@);
}

} // verus!
