//! Strings as sequences of characters: trimming, lowercasing, replacing and splitting.
use vstd::prelude::*;
use vstd::string::*;

verus! {

/// The characters of the Unicode property `White_Space`.
pub open spec fn white_space(c: char) -> bool {
    ||| '\u{9}' <= c <= '\u{d}'
    ||| c == '\u{20}'
    ||| c == '\u{85}'
    ||| c == '\u{a0}'
    ||| c == '\u{1680}'
    ||| '\u{2000}' <= c <= '\u{200a}'
    ||| c == '\u{2028}'
    ||| c == '\u{2029}'
    ||| c == '\u{202f}'
    ||| c == '\u{205f}'
    ||| c == '\u{3000}'
}

/// `s` without its leading white space.
pub open spec fn trimmed_start(s: Seq<char>) -> Seq<char>
    decreases s.len(),
{
    if s.len() > 0 && white_space(s[0]) {
        trimmed_start(s.drop_first())
    } else {
        s
    }
}

/// `s` without its trailing white space.
pub open spec fn trimmed_end(s: Seq<char>) -> Seq<char>
    decreases s.len(),
{
    if s.len() > 0 && white_space(s.last()) {
        trimmed_end(s.drop_last())
    } else {
        s
    }
}

/// `s` without its leading and trailing white space.
pub open spec fn trimmed(s: Seq<char>) -> Seq<char> {
    trimmed_end(trimmed_start(s))
}

/// Whether `c` is one of the 128 ASCII characters.
pub open spec fn ascii(c: char) -> bool {
    c <= '\u{7f}'
}

/// The ASCII lowercase form of one character.
pub open spec fn ascii_lower(c: char) -> char {
    if 'A' <= c <= 'Z' {
        ((c as u32) + 32) as char
    } else {
        c
    }
}

/// Whether every character of `s` is ASCII.
pub open spec fn all_ascii(s: Seq<char>) -> bool {
    forall|i: int| 0 <= i < s.len() ==> ascii(#[trigger] s[i])
}

/// The ASCII lowercase form of every character of `s`.
pub open spec fn ascii_lowercase(s: Seq<char>) -> Seq<char> {
    s.map_values(|c: char| ascii_lower(c))
}

/// What `str::to_lowercase` makes of a text beyond ASCII: of a single character, or of a text that
/// holds a capital sigma.
pub uninterp spec fn unicode_lowercase(s: Seq<char>) -> Seq<char>;

/// The lowercase form of one character, which may be more than one character. White space has none
/// but itself.
pub open spec fn lower_char(c: char) -> Seq<char> {
    if ascii(c) || white_space(c) {
        seq![ascii_lower(c)]
    } else {
        unicode_lowercase(seq![c])
    }
}

/// The lowercase forms of the characters of `s`, one after the other.
pub open spec fn lower_chars(s: Seq<char>) -> Seq<char>
    decreases s.len(),
{
    if s.len() == 0 {
        s
    } else {
        lower_chars(s.drop_last()) + lower_char(s.last())
    }
}

/// Whether `s` holds a capital sigma, the one character whose lowercase form depends on what stands
/// around it.
pub open spec fn has_capital_sigma(s: Seq<char>) -> bool {
    s.contains('\u{3a3}')
}

/// The lowercase form of `s`: character by character, unless it holds a capital sigma.
pub open spec fn lowercase(s: Seq<char>) -> Seq<char> {
    if all_ascii(s) {
        ascii_lowercase(s)
    } else if has_capital_sigma(s) {
        unicode_lowercase(s)
    } else {
        lower_chars(s)
    }
}

/// Whether every character of `s` is its own lowercase form.
pub open spec fn all_lower(s: Seq<char>) -> bool {
    forall|i: int|
        0 <= i < s.len() ==> #[trigger] lower_char(s[i]) == seq![s[i]] && s[i] != '\u{3a3}'
}

/// Whether `word` stands in `s` at position `i`.
pub open spec fn occurs_at(s: Seq<char>, word: Seq<char>, i: int) -> bool {
    0 <= i && i + word.len() <= s.len() && s.subrange(i, i + word.len()) == word
}

/// `s` with every occurrence of `from`, taken from left to right without overlap, replaced by
/// `to`.
pub open spec fn replaced(s: Seq<char>, from: Seq<char>, to: Seq<char>) -> Seq<char>
    decreases s.len(),
{
    if s.len() == 0 {
        s
    } else if from.len() > 0 && occurs_at(s, from, 0) {
        to + replaced(s.skip(from.len() as int), from, to)
    } else {
        seq![s[0]] + replaced(s.drop_first(), from, to)
    }
}

/// The pieces of `s` between the occurrences of `separator`, empty pieces included.
pub open spec fn pieces(s: Seq<char>, separator: char) -> Seq<Seq<char>>
    decreases s.len(),
{
    if s.len() == 0 {
        seq![s]
    } else {
        let before = pieces(s.drop_last(), separator);
        if s.last() == separator {
            before.push(Seq::empty())
        } else {
            before.drop_last().push(before.last().push(s.last()))
        }
    }
}

/// Whether `c` is white space.
fn is_white_space(c: char) -> (r: bool)
    ensures
        r == white_space(c),
{
    ('\u{9}' <= c && c <= '\u{d}') || c == '\u{20}' || c == '\u{85}' || c == '\u{a0}' || c
        == '\u{1680}' || ('\u{2000}' <= c && c <= '\u{200a}') || c == '\u{2028}' || c == '\u{2029}'
        || c == '\u{202f}' || c == '\u{205f}' || c == '\u{3000}'
}

/// The text without its leading and trailing white space.
pub(crate) fn trim(s: &str) -> (r: &str)
    ensures
        r@ == trimmed(s@),
{
    let mut from: usize = 0;
    let mut to: usize = s.unicode_len();
    assert(s@.skip(0) =~= s@);
    while from < to && is_white_space(s.get_char(from))
        invariant
            from <= to == s@.len(),
            trimmed_start(s@) == trimmed_start(s@.skip(from as int)),
        decreases to - from,
    {
        assert(s@.skip(from as int).drop_first() =~= s@.skip(from + 1));
        from += 1;
    }
    let ghost start = s@.skip(from as int);
    assert(start.take(start.len() as int) =~= start);
    while from < to && is_white_space(s.get_char(to - 1))
        invariant
            from <= to <= s@.len(),
            start == s@.skip(from as int),
            trimmed_end(start) == trimmed_end(start.take(to - from)),
        decreases to - from,
    {
        assert(start.take(to - from).drop_last() =~= start.take(to - 1 - from));
        to -= 1;
    }
    assert(s@.subrange(from as int, to as int) =~= start.take(to - from));
    s.substring_char(from, to)
}

/// Calls `str::to_lowercase`. A text is lowercased character by character, an ASCII letter to its
/// small one and white space to itself; only a capital sigma, which becomes one of the two small
/// sigmas, goes by the characters around it. The result holds nothing that lowercasing would change.
/// It is empty only if the text is, and starts or ends with white space only if the text does. No
/// character but `+` itself lowercases to `+`. Which lowercase form a character beyond ASCII has is
/// left to the Unicode tables, and so is the choice between the two small sigmas.
#[verifier::external_body]
pub(crate) fn to_lowercase(s: &str) -> (r: String)
    ensures
        all_ascii(s@) ==> r@ == ascii_lowercase(s@),
        !all_ascii(s@) && !has_capital_sigma(s@) ==> r@ == lower_chars(s@),
        has_capital_sigma(s@) ==> r@ == unicode_lowercase(s@) && (r@.contains('\u{3c3}')
            || r@.contains('\u{3c2}')),
        all_lower(r@),
        s@.len() > 0 ==> r@.len() > 0 && (white_space(r@[0]) ==> white_space(s@[0])) && (
        white_space(r@.last()) ==> white_space(s@.last())),
        !s@.contains('+') ==> !r@.contains('+'),
{
    s.to_lowercase()
}

/// Whether two strings hold the same characters.
pub(crate) fn same_text(a: &str, b: &str) -> (r: bool)
    ensures
        r == (a@ == b@),
{
    let n: usize = a.unicode_len();
    if n != b.unicode_len() {
        return false;
    }
    let mut i: usize = 0;
    while i < n
        invariant
            i <= n == a@.len() == b@.len(),
            forall|j: int| 0 <= j < i ==> a@[j] == b@[j],
        decreases n - i,
    {
        if a.get_char(i) != b.get_char(i) {
            return false;
        }
        i = i + 1;
    }
    assert(a@ =~= b@);
    true
}

/// Whether `word` stands in `s` at position `i`.
pub(crate) fn has_at(s: &str, word: &str, i: usize) -> (r: bool)
    requires
        i <= s@.len(),
    ensures
        r == occurs_at(s@, word@, i as int),
{
    let n: usize = word.unicode_len();
    let len: usize = s.unicode_len();
    if n > len - i {
        return false;
    }
    same_text(s.substring_char(i, i + n), word)
}

/// `s` with every occurrence of `from` replaced by `to`.
pub(crate) fn replace_all(s: &str, from: &str, to: &str) -> (r: String)
    requires
        from@.len() > 0,
    ensures
        r@ == replaced(s@, from@, to@),
{
    let len: usize = s.unicode_len();
    let step: usize = from.unicode_len();
    let mut out: String = String::new();
    let mut i: usize = 0;
    assert(s@.skip(0) =~= s@);
    while i < len
        invariant
            i <= len == s@.len(),
            step == from@.len() > 0,
            out@ + replaced(s@.skip(i as int), from@, to@) == replaced(s@, from@, to@),
        decreases len - i,
    {
        let ghost rest = s@.skip(i as int);
        assert(s@.subrange(i as int, i as int + from@.len()) =~= rest.subrange(
            0,
            from@.len() as int,
        ) || i + from@.len() > len);
        let ghost before = out@;
        if has_at(s, from, i) {
            out.append(to);
            i = i + step;
            proof {
                assert(rest.skip(step as int) =~= s@.skip(i as int));
                assert(before + (to@ + replaced(s@.skip(i as int), from@, to@)) =~= out@ + replaced(
                    s@.skip(i as int),
                    from@,
                    to@,
                ));
            }
        } else {
            out.append(s.substring_char(i, i + 1));
            i = i + 1;
            proof {
                assert(rest.drop_first() =~= s@.skip(i as int));
                assert(s@.subrange(i - 1, i as int) =~= seq![rest[0]]);
                assert(before + (seq![rest[0]] + replaced(s@.skip(i as int), from@, to@)) =~= out@
                    + replaced(s@.skip(i as int), from@, to@));
            }
        }
    }
    assert(out@ + replaced(s@.skip(len as int), from@, to@) =~= out@);
    out
}

/// The texts of a list of string slices.
pub open spec fn texts(list: Seq<&str>) -> Seq<Seq<char>> {
    list.map_values(|t: &str| t@)
}

/// The pieces of `s` between the occurrences of `separator`.
pub(crate) fn split_on(s: &str, separator: char) -> (r: Vec<&str>)
    ensures
        texts(r@) == pieces(s@, separator),
{
    let len: usize = s.unicode_len();
    let mut out: Vec<&str> = Vec::new();
    let mut start: usize = 0;
    let mut i: usize = 0;
    assert(s@.take(0) =~= Seq::<char>::empty());
    assert(s@.subrange(0, 0) =~= Seq::<char>::empty());
    assert(texts(out@).push(s@.subrange(0, 0)) =~= pieces(s@.take(0), separator));
    while i < len
        invariant
            start <= i <= len == s@.len(),
            texts(out@).push(s@.subrange(start as int, i as int)) == pieces(
                s@.take(i as int),
                separator,
            ),
        decreases len - i,
    {
        let ghost done = texts(out@);
        let ghost open = s@.subrange(start as int, i as int);
        proof {
            assert(s@.take(i + 1).drop_last() =~= s@.take(i as int));
            assert(s@.take(i + 1).last() == s@[i as int]);
            assert(done.push(open).drop_last() =~= done);
        }
        if s.get_char(i) == separator {
            out.push(s.substring_char(start, i));
            start = i + 1;
            assert(texts(out@) =~= done.push(open));
            assert(s@.subrange(start as int, i + 1) =~= Seq::<char>::empty());
        } else {
            assert(s@.subrange(start as int, i + 1) =~= open.push(s@[i as int]));
        }
        i = i + 1;
    }
    let ghost done = texts(out@);
    out.push(s.substring_char(start, len));
    proof {
        assert(s@.take(len as int) =~= s@);
        assert(texts(out@) =~= done.push(s@.subrange(start as int, len as int)));
    }
    out
}

/// Trimming adds no character.
pub proof fn lemma_trimmed_keeps_out(s: Seq<char>, c: char)
    requires
        !s.contains(c),
    ensures
        !trimmed(s).contains(c),
{
    lemma_trimmed_start_keeps_out(s, c);
    lemma_trimmed_end_keeps_out(trimmed_start(s), c);
}

proof fn lemma_trimmed_start_keeps_out(s: Seq<char>, c: char)
    requires
        !s.contains(c),
    ensures
        !trimmed_start(s).contains(c),
    decreases s.len(),
{
    if s.len() > 0 && white_space(s[0]) {
        assert(forall|i: int| 0 <= i < s.len() - 1 ==> s.drop_first()[i] == s[i + 1]);
        lemma_trimmed_start_keeps_out(s.drop_first(), c);
    }
}

proof fn lemma_trimmed_end_keeps_out(s: Seq<char>, c: char)
    requires
        !s.contains(c),
    ensures
        !trimmed_end(s).contains(c),
    decreases s.len(),
{
    if s.len() > 0 && white_space(s.last()) {
        assert(forall|i: int| 0 <= i < s.len() - 1 ==> s.drop_last()[i] == s[i]);
        lemma_trimmed_end_keeps_out(s.drop_last(), c);
    }
}

/// A text that neither starts nor ends with white space is trimmed already.
pub proof fn lemma_trimmed_already(s: Seq<char>)
    requires
        s.len() > 0,
        !white_space(s[0]),
        !white_space(s.last()),
    ensures
        trimmed(s) == s,
{
}

/// An ASCII text without capital letters is in lowercase already.
pub proof fn lemma_lowercase_already(s: Seq<char>)
    requires
        forall|i: int| 0 <= i < s.len() ==> ascii(#[trigger] s[i]) && !('A' <= s[i] <= 'Z'),
    ensures
        lowercase(s) == s,
{
    assert(ascii_lowercase(s) =~= s);
}

/// Lowercasing goes text by text where it goes character by character.
pub proof fn lemma_lower_chars_in_two(a: Seq<char>, b: Seq<char>)
    ensures
        lower_chars(a + b) == lower_chars(a) + lower_chars(b),
    decreases b.len(),
{
    if b.len() > 0 {
        lemma_lower_chars_in_two(a, b.drop_last());
        assert((a + b).drop_last() =~= a + b.drop_last());
        assert((a + b).last() == b.last());
        assert(lower_chars(a) + lower_chars(b) =~= lower_chars(a) + lower_chars(b.drop_last())
            + lower_char(b.last()));
    } else {
        assert(a + b =~= a);
        assert(lower_chars(a) + lower_chars(b) =~= lower_chars(a));
    }
}

/// An ASCII text is lowercased character by character too.
pub proof fn lemma_lowercase_by_character(s: Seq<char>)
    requires
        !has_capital_sigma(s),
    ensures
        lowercase(s) == lower_chars(s),
    decreases s.len(),
{
    if all_ascii(s) && s.len() > 0 {
        let rest = s.drop_last();
        assert(forall|i: int| 0 <= i < rest.len() ==> #[trigger] rest[i] == s[i]);
        assert(!has_capital_sigma(rest));
        lemma_lowercase_by_character(rest);
        assert(all_ascii(rest));
        assert(ascii(s[s.len() - 1]));
        assert(ascii_lowercase(s) =~= ascii_lowercase(rest) + lower_char(s.last()));
    } else if s.len() == 0 {
        assert(ascii_lowercase(s) =~= s);
    }
}

/// A text whose characters are their own lowercase forms is its own lowercase form.
pub proof fn lemma_lower_already(s: Seq<char>)
    requires
        all_lower(s),
    ensures
        lowercase(s) == s,
{
    assert forall|i: int| 0 <= i < s.len() implies s[i] != '\u{3a3}' by {
        assert(lower_char(s[i]) == seq![s[i]]);
    }
    lemma_lowercase_by_character(s);
    lemma_lower_chars_already(s);
}

proof fn lemma_lower_chars_already(s: Seq<char>)
    requires
        all_lower(s),
    ensures
        lower_chars(s) == s,
    decreases s.len(),
{
    if s.len() > 0 {
        let rest = s.drop_last();
        assert forall|i: int| 0 <= i < rest.len() implies #[trigger] lower_char(rest[i])
            == seq![rest[i]] && rest[i] != '\u{3a3}' by {
            assert(lower_char(s[i]) == seq![s[i]]);
        }
        lemma_lower_chars_already(rest);
        assert(lower_char(s[s.len() - 1]) == seq![s[s.len() - 1]]);
        assert(rest + seq![s.last()] =~= s);
    }
}

/// Replacing what does not occur changes nothing.
pub proof fn lemma_replaced_absent(s: Seq<char>, from: Seq<char>, to: Seq<char>)
    requires
        forall|i: int| !#[trigger] occurs_at(s, from, i),
    ensures
        replaced(s, from, to) == s,
    decreases s.len(),
{
    if s.len() > 0 {
        assert(!occurs_at(s, from, 0));
        let rest = s.drop_first();
        assert forall|i: int| !#[trigger] occurs_at(rest, from, i) by {
            if occurs_at(rest, from, i) {
                assert(s.subrange(i + 1, i + 1 + from.len()) =~= rest.subrange(
                    i,
                    i + from.len(),
                ));
                assert(occurs_at(s, from, i + 1));
            }
        }
        lemma_replaced_absent(rest, from, to);
        assert(seq![s[0]] + rest =~= s);
    }
}

/// A text without the separator is one piece.
pub proof fn lemma_pieces_of_one(s: Seq<char>, separator: char)
    requires
        !s.contains(separator),
    ensures
        pieces(s, separator) == seq![s],
    decreases s.len(),
{
    if s.len() > 0 {
        assert(s.contains(s.last()));
        assert forall|i: int| 0 <= i < s.len() - 1 implies s.drop_last()[i] != separator by {
            assert(s.contains(s[i]));
        }
        lemma_pieces_of_one(s.drop_last(), separator);
        assert(s.drop_last().push(s.last()) =~= s);
        assert(pieces(s, separator) =~= seq![s]);
    }
}

/// The pieces of two texts with the separator between them are the pieces of one and of the other.
pub proof fn lemma_pieces_of_two(a: Seq<char>, b: Seq<char>, separator: char)
    ensures
        pieces(a.push(separator) + b, separator) == pieces(a, separator) + pieces(b, separator),
        pieces(b, separator).len() > 0,
    decreases b.len(),
{
    let whole = a.push(separator) + b;
    if b.len() == 0 {
        assert(whole =~= a.push(separator));
        assert(whole.drop_last() =~= a);
        assert(b =~= Seq::<char>::empty());
        assert(pieces(whole, separator) =~= pieces(a, separator) + pieces(b, separator));
    } else {
        assert(whole.drop_last() =~= a.push(separator) + b.drop_last());
        lemma_pieces_of_two(a, b.drop_last(), separator);
        assert(pieces(whole, separator) =~= pieces(a, separator) + pieces(b, separator));
    }
}

/// No piece holds the separator.
pub proof fn lemma_pieces_lack_separator(s: Seq<char>, separator: char)
    ensures
        pieces(s, separator).len() > 0,
        forall|i: int|
            0 <= i < pieces(s, separator).len() ==> !(#[trigger] pieces(s, separator)[i]).contains(
                separator,
            ),
    decreases s.len(),
{
    if s.len() > 0 {
        let before = pieces(s.drop_last(), separator);
        lemma_pieces_lack_separator(s.drop_last(), separator);
        let last = before.last();
        assert(!before[before.len() - 1].contains(separator));
        if s.last() != separator {
            assert forall|i: int| 0 <= i < last.len() + 1 implies last.push(s.last())[i]
                != separator by {
                if i < last.len() {
                    assert(last.contains(last[i]));
                }
            }
        }
    }
}

/// Whether `word` and `block`, laid over each other in any way, differ somewhere.
pub open spec fn clashes(word: Seq<char>, block: Seq<char>) -> bool {
    forall|shift: int|
        -word.len() < shift < block.len() ==> #[trigger] clashes_at(word, block, shift)
}

/// Whether `word`, laid over `block` from its position `shift` on, differs from it somewhere.
pub open spec fn clashes_at(word: Seq<char>, block: Seq<char>, shift: int) -> bool {
    exists|j: int|
        0 <= j < word.len() && 0 <= shift + j < block.len() && #[trigger] word[j] != block[shift
            + j]
}

/// A word that differs from the replacement in every position starts a replaced text only where it
/// starts the text itself; the same holds of its endings.
proof fn lemma_replaced_starts(
    s: Seq<char>,
    from: Seq<char>,
    to: Seq<char>,
    word: Seq<char>,
    k: int,
)
    requires
        clashes(word, to),
        to.len() > 0,
        0 <= k < word.len(),
        occurs_at(replaced(s, from, to), word.skip(k), 0),
    ensures
        occurs_at(s, word.skip(k), 0),
        !(from.len() > 0 && occurs_at(s, from, 0)),
    decreases s.len(),
{
    let r = replaced(s, from, to);
    let ending = word.skip(k);
    let found = r.subrange(0, ending.len() as int);
    assert(forall|j: int| k <= j < word.len() ==> ending[j - k] == word[j]);
    if from.len() > 0 && occurs_at(s, from, 0) {
        assert(clashes_at(word, to, -k));
        let j = choose|j: int|
            0 <= j < word.len() && 0 <= -k + j < to.len() && #[trigger] word[j] != to[-k + j];
        assert(found[j - k] == r[j - k]);
        assert(r[j - k] == to[j - k]);
        assert(false);
    }
    let rest = s.drop_first();
    let replaced_rest = replaced(rest, from, to);
    assert(found[0] == r[0]);
    if k + 1 < word.len() {
        assert(replaced_rest.subrange(0, ending.len() - 1) =~= word.skip(k + 1)) by {
            assert forall|j: int| 0 <= j < ending.len() - 1 implies replaced_rest[j] == word[j + k
                + 1] by {
                assert(found[j + 1] == r[j + 1]);
            }
        }
        lemma_replaced_starts(rest, from, to, word, k + 1);
        assert(s.subrange(0, ending.len() as int) =~= ending) by {
            let next = rest.subrange(0, ending.len() - 1);
            assert forall|j: int| 0 <= j < ending.len() implies s[j] == ending[j] by {
                if j > 0 {
                    assert(next[j - 1] == rest[j - 1]);
                }
            }
        }
    } else {
        assert(s.subrange(0, 1) =~= ending);
    }
}

/// A word that differs from the replacement in every position does not occur in the replaced text,
/// if it is what is replaced or did not occur before.
pub proof fn lemma_replaced_lacks(
    s: Seq<char>,
    from: Seq<char>,
    to: Seq<char>,
    word: Seq<char>,
    i: int,
)
    requires
        clashes(word, to),
        to.len() > 0,
        word.len() > 0,
        word == from || (forall|k: int| !#[trigger] occurs_at(s, word, k)),
    ensures
        !occurs_at(replaced(s, from, to), word, i),
    decreases s.len(),
{
    let r = replaced(s, from, to);
    if occurs_at(r, word, i) {
        assert(word.skip(0) =~= word);
        let found = r.subrange(i, i + word.len());
        if i == 0 {
            lemma_replaced_starts(s, from, to, word, 0);
        } else if occurs_at(s, from, 0) && from.len() > 0 {
            let rest = s.skip(from.len() as int);
            if i < to.len() {
                assert(clashes_at(word, to, i));
                let j = choose|j: int|
                    0 <= j < word.len() && 0 <= i + j < to.len() && #[trigger] word[j] != to[i + j];
                assert(found[j] == r[i + j]);
            } else {
                let at = i - to.len();
                assert(replaced(rest, from, to).subrange(at, at + word.len()) =~= found);
                lemma_skipped_lacks(s, word, from.len() as int);
                lemma_replaced_lacks(rest, from, to, word, at);
            }
        } else {
            let rest = s.drop_first();
            assert(replaced(rest, from, to).subrange(i - 1, i - 1 + word.len()) =~= found);
            assert(rest =~= s.skip(1));
            lemma_skipped_lacks(s, word, 1);
            lemma_replaced_lacks(rest, from, to, word, i - 1);
        }
    }
}

/// What does not occur in a text does not occur in an ending of it.
proof fn lemma_skipped_lacks(s: Seq<char>, word: Seq<char>, n: int)
    requires
        0 <= n <= s.len(),
    ensures
        (forall|k: int| !#[trigger] occurs_at(s, word, k)) ==> (forall|k: int|
            !#[trigger] occurs_at(s.skip(n), word, k)),
{
    if forall|k: int| !#[trigger] occurs_at(s, word, k) {
        assert forall|k: int| !#[trigger] occurs_at(s.skip(n), word, k) by {
            if occurs_at(s.skip(n), word, k) {
                assert(s.subrange(k + n, k + n + word.len()) =~= s.skip(n).subrange(
                    k,
                    k + word.len(),
                ));
                assert(occurs_at(s, word, k + n));
            }
        }
    }
}

/// A word and a block clash if neither holds the first character of the other.
pub proof fn lemma_clashes(word: Seq<char>, block: Seq<char>)
    requires
        word.len() > 0,
        block.len() > 0,
        !block.contains(word[0]),
        !word.contains(block[0]),
    ensures
        clashes(word, block),
{
    assert forall|shift: int| -word.len() < shift < block.len() implies #[trigger] clashes_at(
        word,
        block,
        shift,
    ) by {
        if shift >= 0 {
            assert(block.contains(block[shift]));
            assert(word[0] != block[shift + 0]);
        } else {
            assert(word.contains(word[-shift]));
            assert(word[-shift] != block[shift + (-shift)]);
        }
    }
}

/// Whether `c` does not stand in `s` from position `i` on.
pub open spec fn lacks_from(s: Seq<char>, c: char, i: int) -> bool
    decreases s.len() - i,
{
    i >= s.len() || (s[i] != c && lacks_from(s, c, i + 1))
}

/// What `lacks_from` says of the whole text.
pub proof fn lemma_lacks(s: Seq<char>, c: char)
    requires
        lacks_from(s, c, 0),
    ensures
        !s.contains(c),
{
    assert forall|i: int| 0 <= i < s.len() implies s[i] != c by {
        lemma_lacks_at(s, c, 0, i);
    }
}

pub proof fn lemma_lacks_at(s: Seq<char>, c: char, from: int, i: int)
    requires
        lacks_from(s, c, from),
        from <= i < s.len(),
    ensures
        s[i] != c,
    decreases i - from,
{
    if from < i {
        lemma_lacks_at(s, c, from + 1, i);
    }
}

/// Trimming leaves nothing to trim, and leaves characters of the text only.
pub proof fn lemma_trimmed(s: Seq<char>)
    ensures
        trimmed(s).len() > 0 ==> !white_space(trimmed(s)[0]) && !white_space(trimmed(s).last()),
        forall|i: int| 0 <= i < trimmed(s).len() ==> s.contains(#[trigger] trimmed(s)[i]),
{
    lemma_trimmed_start(s);
    lemma_trimmed_end(trimmed_start(s));
    assert forall|i: int| 0 <= i < trimmed(s).len() implies s.contains(#[trigger] trimmed(s)[i]) by {
        assert(trimmed_start(s).contains(trimmed(s)[i]));
        let j = choose|j: int|
            0 <= j < trimmed_start(s).len() && trimmed_start(s)[j] == trimmed(s)[i];
        assert(s.contains(trimmed_start(s)[j]));
    }
}

pub proof fn lemma_trimmed_start(s: Seq<char>)
    ensures
        trimmed_start(s).len() > 0 ==> !white_space(trimmed_start(s)[0]),
        forall|i: int|
            0 <= i < trimmed_start(s).len() ==> s.contains(#[trigger] trimmed_start(s)[i]),
    decreases s.len(),
{
    if s.len() > 0 && white_space(s[0]) {
        let rest = s.drop_first();
        lemma_trimmed_start(rest);
        assert forall|i: int| 0 <= i < trimmed_start(s).len() implies s.contains(
            #[trigger] trimmed_start(s)[i],
        ) by {
            assert(rest.contains(trimmed_start(rest)[i]));
            let j = choose|j: int| 0 <= j < rest.len() && rest[j] == trimmed_start(rest)[i];
            assert(s[j + 1] == rest[j]);
        }
    }
}

proof fn lemma_trimmed_end(s: Seq<char>)
    ensures
        trimmed_end(s).len() > 0 ==> !white_space(trimmed_end(s).last()) && trimmed_end(s)[0]
            == s[0],
        forall|i: int| 0 <= i < trimmed_end(s).len() ==> s.contains(#[trigger] trimmed_end(s)[i]),
    decreases s.len(),
{
    if s.len() > 0 && white_space(s.last()) {
        let rest = s.drop_last();
        lemma_trimmed_end(rest);
        assert forall|i: int| 0 <= i < trimmed_end(s).len() implies s.contains(
            #[trigger] trimmed_end(s)[i],
        ) by {
            assert(rest.contains(trimmed_end(rest)[i]));
            let j = choose|j: int| 0 <= j < rest.len() && rest[j] == trimmed_end(rest)[i];
            assert(s[j] == rest[j]);
        }
    }
}

/// Replacing keeps what all characters of the text and of the replacement have in common, and what
/// their first ones and their last ones have in common.
pub proof fn lemma_replaced_keeps(
    s: Seq<char>,
    from: Seq<char>,
    to: Seq<char>,
    good: spec_fn(char) -> bool,
    end: spec_fn(char) -> bool,
)
    requires
        to.len() > 0,
        forall|i: int| 0 <= i < s.len() ==> good(#[trigger] s[i]),
        forall|i: int| 0 <= i < to.len() ==> good(#[trigger] to[i]),
        end(to[0]),
        end(to.last()),
    ensures
        forall|i: int|
            0 <= i < replaced(s, from, to).len() ==> good(#[trigger] replaced(s, from, to)[i]),
        s.len() > 0 ==> replaced(s, from, to).len() > 0,
        s.len() == 0 ==> replaced(s, from, to).len() == 0,
        s.len() > 0 && end(s[0]) ==> end(replaced(s, from, to)[0]),
        s.len() > 0 && end(s.last()) ==> end(replaced(s, from, to).last()),
    decreases s.len(),
{
    if s.len() > 0 {
        let rest = if from.len() > 0 && occurs_at(s, from, 0) {
            s.skip(from.len() as int)
        } else {
            s.drop_first()
        };
        lemma_replaced_keeps(rest, from, to, good, end);
    }
}

/// Lowercasing an ASCII text changes no white space at its start.
pub proof fn lemma_trimmed_start_of_lowercase(s: Seq<char>)
    requires
        all_ascii(s),
    ensures
        trimmed_start(ascii_lowercase(s)) == ascii_lowercase(trimmed_start(s)),
    decreases s.len(),
{
    if s.len() > 0 {
        assert(ascii(s[0]));
        if white_space(s[0]) {
            let rest = s.drop_first();
            assert(forall|i: int| 0 <= i < rest.len() ==> #[trigger] rest[i] == s[i + 1]);
            lemma_trimmed_start_of_lowercase(rest);
            assert(ascii_lowercase(s).drop_first() =~= ascii_lowercase(rest));
        }
    }
}

/// Lowercasing an ASCII text changes no white space at its end.
pub proof fn lemma_trimmed_end_of_lowercase(s: Seq<char>)
    requires
        all_ascii(s),
    ensures
        trimmed_end(ascii_lowercase(s)) == ascii_lowercase(trimmed_end(s)),
    decreases s.len(),
{
    if s.len() > 0 {
        assert(ascii(s[s.len() - 1]));
        if white_space(s.last()) {
            let rest = s.drop_last();
            assert(forall|i: int| 0 <= i < rest.len() ==> #[trigger] rest[i] == s[i]);
            lemma_trimmed_end_of_lowercase(rest);
            assert(ascii_lowercase(s).drop_last() =~= ascii_lowercase(rest));
        }
    }
}

/// Replacing goes part by part between characters that the replaced word does not hold.
pub proof fn lemma_replaced_in_two(
    a: Seq<char>,
    c: char,
    b: Seq<char>,
    from: Seq<char>,
    to: Seq<char>,
)
    requires
        !from.contains(c),
    ensures
        replaced(a.push(c) + b, from, to) == replaced(a, from, to).push(c) + replaced(b, from, to),
    decreases a.len(),
{
    let whole = a.push(c) + b;
    let n = from.len() as int;
    if n > 0 && occurs_at(whole, from, 0) {
        let found = whole.subrange(0, n);
        if a.len() < n {
            assert(found[a.len() as int] == c);
            assert(from.contains(from[a.len() as int]));
        }
        assert(a.subrange(0, n) =~= found);
        let rest = a.skip(n);
        assert(whole.skip(n) =~= rest.push(c) + b);
        lemma_replaced_in_two(rest, c, b, from, to);
        assert(to + (replaced(rest, from, to).push(c) + replaced(b, from, to)) =~= (to + replaced(
            rest,
            from,
            to,
        )).push(c) + replaced(b, from, to));
    } else {
        if n > 0 && occurs_at(a, from, 0) {
            assert(whole.subrange(0, n) =~= a.subrange(0, n));
        }
        assert(whole[0] == if a.len() > 0 { a[0] } else { c });
        if a.len() > 0 {
            let rest = a.drop_first();
            assert(whole.drop_first() =~= rest.push(c) + b);
            lemma_replaced_in_two(rest, c, b, from, to);
            assert(seq![a[0]] + (replaced(rest, from, to).push(c) + replaced(b, from, to)) =~= (
            seq![a[0]] + replaced(rest, from, to)).push(c) + replaced(b, from, to));
        } else {
            assert(whole.drop_first() =~= b);
            assert(seq![c] + replaced(b, from, to) =~= replaced(a, from, to).push(c) + replaced(
                b,
                from,
                to,
            ));
        }
    }
}

/// Replacing brings in no character but those of the replacement.
pub proof fn lemma_replaced_keeps_out(s: Seq<char>, from: Seq<char>, to: Seq<char>, c: char)
    requires
        !s.contains(c),
        !to.contains(c),
        to.len() > 0,
    ensures
        !replaced(s, from, to).contains(c),
{
    let other = |x: char| x != c;
    assert forall|i: int| 0 <= i < s.len() implies other(#[trigger] s[i]) by {
        assert(s.contains(s[i]));
    }
    assert forall|i: int| 0 <= i < to.len() implies other(#[trigger] to[i]) by {
        assert(to.contains(to[i]));
    }
    lemma_replaced_keeps(s, from, to, other, other);
}

/// The pieces of a replaced text are the replaced pieces of the text, if neither the replaced word
/// nor the replacement holds the separator.
pub proof fn lemma_pieces_of_replaced(
    s: Seq<char>,
    separator: char,
    from: Seq<char>,
    to: Seq<char>,
)
    requires
        !from.contains(separator),
        !to.contains(separator),
        to.len() > 0,
    ensures
        pieces(replaced(s, from, to), separator) == pieces(s, separator).map_values(
            |piece: Seq<char>| replaced(piece, from, to),
        ),
    decreases s.len(),
{
    let change = |piece: Seq<char>| replaced(piece, from, to);
    if s.contains(separator) {
        let k = choose|k: int| 0 <= k < s.len() && s[k] == separator;
        let a = s.take(k);
        let b = s.skip(k + 1);
        assert(s =~= a.push(separator) + b);
        lemma_replaced_in_two(a, separator, b, from, to);
        lemma_pieces_of_two(a, b, separator);
        lemma_pieces_of_two(replaced(a, from, to), replaced(b, from, to), separator);
        lemma_pieces_of_replaced(a, separator, from, to);
        lemma_pieces_of_replaced(b, separator, from, to);
        assert((pieces(a, separator) + pieces(b, separator)).map_values(change) =~= pieces(
            a,
            separator,
        ).map_values(change) + pieces(b, separator).map_values(change));
    } else {
        lemma_pieces_of_one(s, separator);
        lemma_replaced_keeps_out(s, from, to, separator);
        lemma_pieces_of_one(replaced(s, from, to), separator);
        assert(seq![s].map_values(change) =~= seq![replaced(s, from, to)]);
    }
}

/// The pieces of an ASCII text in lowercase are its pieces in lowercase, if the separator is no
/// letter.
pub proof fn lemma_pieces_of_lowercase(s: Seq<char>, separator: char)
    requires
        !('a' <= separator <= 'z'),
        !('A' <= separator <= 'Z'),
    ensures
        pieces(ascii_lowercase(s), separator) == pieces(s, separator).map_values(
            |piece: Seq<char>| ascii_lowercase(piece),
        ),
    decreases s.len(),
{
    let change = |piece: Seq<char>| ascii_lowercase(piece);
    let lower = ascii_lowercase(s);
    if s.len() > 0 {
        let before = pieces(s.drop_last(), separator);
        lemma_pieces_lack_separator(s.drop_last(), separator);
        lemma_pieces_of_lowercase(s.drop_last(), separator);
        assert(lower.drop_last() =~= ascii_lowercase(s.drop_last()));
        assert(lower.last() == ascii_lower(s.last()));
        assert(lower.last() == separator <==> s.last() == separator);
        if s.last() == separator {
            assert(ascii_lowercase(Seq::empty()) =~= Seq::<char>::empty());
            assert(before.push(Seq::empty()).map_values(change) =~= before.map_values(change).push(
                Seq::empty(),
            ));
        } else {
            let last = before.last();
            assert(ascii_lowercase(last.push(s.last())) =~= ascii_lowercase(last).push(
                ascii_lower(s.last()),
            ));
            assert(pieces(s, separator).map_values(change) =~= before.map_values(
                change,
            ).drop_last().push(ascii_lowercase(last).push(ascii_lower(s.last()))));
        }
    } else {
        assert(lower =~= s);
        assert(seq![s].map_values(change) =~= seq![s]);
    }
}

/// White space at the end of a text changes nothing of its trimmed form.
proof fn lemma_trimmed_of_push(s: Seq<char>, c: char)
    requires
        white_space(c),
    ensures
        trimmed(s.push(c)) == trimmed(s),
    decreases s.len(),
{
    if s.len() > 0 && white_space(s[0]) {
        assert(s.push(c).drop_first() =~= s.drop_first().push(c));
        lemma_trimmed_of_push(s.drop_first(), c);
    } else if s.len() > 0 {
        assert(s.push(c).drop_last() =~= s);
    } else {
        assert(s.push(c).drop_first() =~= s);
    }
}

/// The trimmed pieces of a text.
pub open spec fn trimmed_pieces(s: Seq<char>, separator: char) -> Seq<Seq<char>> {
    pieces(s, separator).map_values(|piece: Seq<char>| trimmed(piece))
}

/// A character in front of a text stands in front of its first piece.
proof fn lemma_pieces_with_front(c: char, s: Seq<char>, separator: char)
    requires
        c != separator,
    ensures
        pieces(s, separator).len() > 0,
        pieces(seq![c] + s, separator) == pieces(s, separator).update(
            0,
            seq![c] + pieces(s, separator)[0],
        ),
    decreases s.len(),
{
    let whole = seq![c] + s;
    if s.len() > 0 {
        let before = pieces(s.drop_last(), separator);
        assert(whole.drop_last() =~= seq![c] + s.drop_last());
        lemma_pieces_with_front(c, s.drop_last(), separator);
        if s.last() != separator && before.len() == 1 {
            assert((seq![c] + before[0]).push(s.last()) =~= seq![c] + before[0].push(s.last()));
        }
        assert(pieces(whole, separator) =~= pieces(s, separator).update(
            0,
            seq![c] + pieces(s, separator)[0],
        ));
    } else {
        assert(whole.drop_last() =~= s);
        assert(s.push(c) =~= seq![c] + s);
        assert(whole.last() == c);
        assert(pieces(s, separator) =~= seq![s]);
        assert(pieces(whole, separator) =~= seq![s].update(0, seq![c] + s));
    }
}

/// Trimming a text first changes nothing of its trimmed pieces.
pub proof fn lemma_pieces_of_trimmed(s: Seq<char>, separator: char)
    requires
        !white_space(separator),
    ensures
        trimmed_pieces(trimmed(s), separator) == trimmed_pieces(s, separator),
{
    lemma_pieces_of_trimmed_start(s, separator);
    lemma_pieces_of_trimmed_end(trimmed_start(s), separator);
}

proof fn lemma_pieces_of_trimmed_start(s: Seq<char>, separator: char)
    requires
        !white_space(separator),
    ensures
        trimmed_pieces(trimmed_start(s), separator) == trimmed_pieces(s, separator),
    decreases s.len(),
{
    if s.len() > 0 && white_space(s[0]) {
        let rest = s.drop_first();
        lemma_pieces_of_trimmed_start(rest, separator);
        lemma_pieces_with_front(s[0], rest, separator);
        assert(s =~= seq![s[0]] + rest);
        let first = pieces(rest, separator)[0];
        assert((seq![s[0]] + first).drop_first() =~= first);
        assert(trimmed_pieces(s, separator) =~= trimmed_pieces(rest, separator));
    }
}

proof fn lemma_pieces_of_trimmed_end(s: Seq<char>, separator: char)
    requires
        !white_space(separator),
    ensures
        trimmed_pieces(trimmed_end(s), separator) == trimmed_pieces(s, separator),
    decreases s.len(),
{
    if s.len() > 0 && white_space(s.last()) {
        let rest = s.drop_last();
        lemma_pieces_of_trimmed_end(rest, separator);
        lemma_pieces_lack_separator(rest, separator);
        lemma_trimmed_of_push(pieces(rest, separator).last(), s.last());
        assert(trimmed_pieces(s, separator) =~= trimmed_pieces(rest, separator));
    }
}

/// Whether `s` holds no white space.
pub open spec fn lacks_white_space(s: Seq<char>) -> bool {
    forall|i: int| 0 <= i < s.len() ==> !white_space(#[trigger] s[i])
}

/// Replacing a word without white space by another goes before or behind trimming alike.
pub proof fn lemma_trimmed_of_replaced(s: Seq<char>, from: Seq<char>, to: Seq<char>)
    requires
        lacks_white_space(from),
        lacks_white_space(to),
        to.len() > 0,
    ensures
        trimmed(replaced(s, from, to)) == replaced(trimmed(s), from, to),
{
    lemma_trimmed_start_of_replaced(s, from, to);
    lemma_trimmed_end_of_replaced(trimmed_start(s), from, to);
}

proof fn lemma_trimmed_start_of_replaced(s: Seq<char>, from: Seq<char>, to: Seq<char>)
    requires
        lacks_white_space(from),
        lacks_white_space(to),
        to.len() > 0,
    ensures
        trimmed_start(replaced(s, from, to)) == replaced(trimmed_start(s), from, to),
    decreases s.len(),
{
    if s.len() > 0 {
        let r = replaced(s, from, to);
        if white_space(s[0]) {
            let rest = s.drop_first();
            if from.len() > 0 && occurs_at(s, from, 0) {
                assert(s.subrange(0, from.len() as int)[0] == s[0]);
                assert(from[0] == s[0]);
            }
            lemma_trimmed_start_of_replaced(rest, from, to);
            assert(r.drop_first() =~= replaced(rest, from, to));
        } else {
            assert(r[0] == s[0] || r[0] == to[0]);
        }
    }
}

proof fn lemma_trimmed_end_of_replaced(s: Seq<char>, from: Seq<char>, to: Seq<char>)
    requires
        lacks_white_space(from),
        lacks_white_space(to),
        to.len() > 0,
    ensures
        trimmed_end(replaced(s, from, to)) == replaced(trimmed_end(s), from, to),
    decreases s.len(),
{
    if s.len() > 0 {
        let r = replaced(s, from, to);
        let c = s.last();
        if white_space(c) {
            let rest = s.drop_last();
            let none = Seq::<char>::empty();
            lemma_replaced_in_two(rest, c, none, from, to);
            assert(rest.push(c) + none =~= s);
            assert(replaced(rest, from, to).push(c) + none =~= replaced(rest, from, to).push(c));
            assert(r.drop_last() =~= replaced(rest, from, to));
            lemma_trimmed_end_of_replaced(rest, from, to);
        } else {
            let any = |x: char| true;
            let end = |x: char| !white_space(x);
            assert(end(to[0]) && end(to[to.len() - 1]));
            lemma_replaced_keeps(s, from, to, any, end);
            assert(end(s.last()));
        }
    }
}

/// White space around a text changes nothing of its trimmed lowercase form.
pub proof fn lemma_trimmed_lower_chars(s: Seq<char>)
    ensures
        trimmed(lower_chars(trimmed(s))) == trimmed(lower_chars(s)),
{
    lemma_trimmed_start_lower_chars(s);
    lemma_trimmed_end_lower_chars(trimmed_start(s));
}

proof fn lemma_trimmed_start_lower_chars(s: Seq<char>)
    ensures
        trimmed(lower_chars(trimmed_start(s))) == trimmed(lower_chars(s)),
    decreases s.len(),
{
    if s.len() > 0 && white_space(s[0]) {
        let c = s[0];
        let rest = s.drop_first();
        let none = Seq::<char>::empty();
        lemma_trimmed_start_lower_chars(rest);
        assert(s =~= seq![c] + rest);
        lemma_lower_chars_in_two(seq![c], rest);
        assert(seq![c].drop_last() =~= none);
        assert(lower_chars(none) == none);
        assert(none + lower_char(c) =~= seq![c]);
        assert(lower_chars(seq![c]) == seq![c]);
        assert((seq![c] + lower_chars(rest)).drop_first() =~= lower_chars(rest));
    }
}

proof fn lemma_trimmed_end_lower_chars(s: Seq<char>)
    ensures
        trimmed(lower_chars(trimmed_end(s))) == trimmed(lower_chars(s)),
    decreases s.len(),
{
    if s.len() > 0 && white_space(s.last()) {
        let rest = s.drop_last();
        lemma_trimmed_end_lower_chars(rest);
        assert(lower_chars(rest) + lower_char(s.last()) =~= lower_chars(rest).push(s.last()));
        lemma_trimmed_of_push(lower_chars(rest), s.last());
    }
}

/// Trimming twice is trimming once.
pub proof fn lemma_trimmed_twice(s: Seq<char>)
    ensures
        trimmed(trimmed(s)) == trimmed(s),
{
    lemma_trimmed(s);
    if trimmed(s).len() > 0 {
        lemma_trimmed_already(trimmed(s));
    }
}

/// Trimming drops no character but white space.
pub proof fn lemma_trimmed_keeps_in(s: Seq<char>, c: char)
    requires
        s.contains(c),
        !white_space(c),
    ensures
        trimmed(s).contains(c),
    decreases s.len(),
{
    let k = choose|k: int| 0 <= k < s.len() && s[k] == c;
    if white_space(s[0]) {
        let rest = s.drop_first();
        assert(rest[k - 1] == c);
        lemma_trimmed_keeps_in(rest, c);
    } else if white_space(s.last()) {
        let rest = s.drop_last();
        assert(rest[k] == c);
        assert(rest[0] == s[0]);
        lemma_trimmed_keeps_in(rest, c);
    } else {
        lemma_trimmed_already(s);
    }
}

/// Replacing a word drops no character but those of the word.
pub proof fn lemma_replaced_keeps_in(s: Seq<char>, from: Seq<char>, to: Seq<char>, c: char)
    requires
        s.contains(c),
        !from.contains(c),
    ensures
        replaced(s, from, to).contains(c),
{
    let k = choose|k: int| 0 <= k < s.len() && s[k] == c;
    let a = s.take(k);
    let b = s.skip(k + 1);
    assert(s =~= a.push(c) + b);
    lemma_replaced_in_two(a, c, b, from, to);
    let before = replaced(a, from, to);
    assert((before.push(c) + replaced(b, from, to))[before.len() as int] == c);
}

/// The characters of a text, but for the separator, are those of its pieces.
pub proof fn lemma_characters_of_pieces(s: Seq<char>, separator: char, c: char)
    requires
        c != separator,
    ensures
        s.contains(c) <==> exists|i: int|
            0 <= i < pieces(s, separator).len() && (#[trigger] pieces(s, separator)[i]).contains(c),
    decreases s.len(),
{
    let all = pieces(s, separator);
    if s.contains(separator) {
        let k = choose|k: int| 0 <= k < s.len() && s[k] == separator;
        let a = s.take(k);
        let b = s.skip(k + 1);
        assert(s =~= a.push(separator) + b);
        lemma_pieces_of_two(a, b, separator);
        lemma_characters_of_pieces(a, separator, c);
        lemma_characters_of_pieces(b, separator, c);
        let of_a = pieces(a, separator);
        let of_b = pieces(b, separator);
        if s.contains(c) {
            let i = choose|i: int| 0 <= i < s.len() && s[i] == c;
            if i < k {
                assert(a[i] == c);
                let j = choose|j: int| 0 <= j < of_a.len() && (#[trigger] of_a[j]).contains(c);
                assert(all[j].contains(c));
            } else {
                assert(b[i - k - 1] == c);
                let j = choose|j: int| 0 <= j < of_b.len() && (#[trigger] of_b[j]).contains(c);
                assert(all[of_a.len() + j].contains(c));
            }
        }
        if exists|i: int| 0 <= i < all.len() && (#[trigger] all[i]).contains(c) {
            let i = choose|i: int| 0 <= i < all.len() && (#[trigger] all[i]).contains(c);
            if i < of_a.len() {
                assert(of_a[i].contains(c));
                let j = choose|j: int| 0 <= j < a.len() && a[j] == c;
                assert(s[j] == c);
            } else {
                assert(of_b[i - of_a.len()].contains(c));
                let j = choose|j: int| 0 <= j < b.len() && b[j] == c;
                assert(s[k + 1 + j] == c);
            }
        }
    } else {
        lemma_pieces_of_one(s, separator);
        assert(all[0] == s);
    }
}

/// White space is the tabulator, the line ends, the space, and the separators of Unicode: 25
/// characters in all.
pub proof fn law_white_space(c: char)
    ensures
        white_space(c) <==> {
            ||| c == '\u{9}' || c == '\u{a}' || c == '\u{b}' || c == '\u{c}' || c == '\u{d}'
            ||| c == '\u{20}' || c == '\u{85}' || c == '\u{a0}' || c == '\u{1680}'
            ||| c == '\u{2000}' || c == '\u{2001}' || c == '\u{2002}' || c == '\u{2003}'
            ||| c == '\u{2004}' || c == '\u{2005}' || c == '\u{2006}' || c == '\u{2007}'
            ||| c == '\u{2008}' || c == '\u{2009}' || c == '\u{200a}' || c == '\u{2028}'
            ||| c == '\u{2029}' || c == '\u{202f}' || c == '\u{205f}' || c == '\u{3000}'
        },
{
}

/// A trimmed text is the middle of the text, with nothing but white space on both sides of it and
/// none at its ends.
pub proof fn law_trimmed_is_the_middle(s: Seq<char>)
    ensures
        exists|from: int, to: int|
            {
                &&& 0 <= from <= to <= s.len()
                &&& trimmed(s) == #[trigger] s.subrange(from, to)
                &&& forall|i: int| 0 <= i < from ==> white_space(#[trigger] s[i])
                &&& forall|i: int| to <= i < s.len() ==> white_space(#[trigger] s[i])
            },
        trimmed(s).len() > 0 ==> !white_space(trimmed(s).first()) && !white_space(
            trimmed(s).last(),
        ),
{
    lemma_trimmed(s);
    let start = trimmed_start(s);
    let end = trimmed_end(start);
    lemma_dropped_at_start(s);
    lemma_dropped_at_end(start);
    let from = s.len() - start.len();
    let to = from + end.len();
    assert(trimmed(s) =~= s.subrange(from, to));
    assert forall|i: int| to <= i < s.len() implies white_space(#[trigger] s[i]) by {
        assert(s[i] == start[i - from]);
    }
}

proof fn lemma_dropped_at_start(s: Seq<char>)
    ensures
        trimmed_start(s).len() <= s.len(),
        trimmed_start(s) == s.skip(s.len() - trimmed_start(s).len()),
        forall|i: int|
            0 <= i < s.len() - trimmed_start(s).len() ==> white_space(#[trigger] s[i]),
    decreases s.len(),
{
    if s.len() > 0 && white_space(s[0]) {
        let rest = s.drop_first();
        lemma_dropped_at_start(rest);
        assert(forall|i: int| 0 < i < s.len() ==> #[trigger] s[i] == rest[i - 1]);
        assert(trimmed_start(s) =~= s.skip(s.len() - trimmed_start(s).len()));
    } else {
        assert(s.skip(0) =~= s);
    }
}

proof fn lemma_dropped_at_end(s: Seq<char>)
    ensures
        trimmed_end(s).len() <= s.len(),
        trimmed_end(s) == s.take(trimmed_end(s).len() as int),
        forall|i: int| trimmed_end(s).len() <= i < s.len() ==> white_space(#[trigger] s[i]),
    decreases s.len(),
{
    if s.len() > 0 && white_space(s.last()) {
        let rest = s.drop_last();
        lemma_dropped_at_end(rest);
        assert(forall|i: int| 0 <= i < rest.len() ==> #[trigger] s[i] == rest[i]);
        assert(trimmed_end(s) =~= s.take(trimmed_end(s).len() as int));
    } else {
        assert(s.take(s.len() as int) =~= s);
    }
}

/// Lowercasing an ASCII text turns its capital letters into the small ones, which lie 32 places
/// further on, and keeps every other character.
pub proof fn law_lowercase_of_ascii(s: Seq<char>)
    requires
        all_ascii(s),
    ensures
        lowercase(s).len() == s.len(),
        forall|i: int|
            0 <= i < s.len() ==> (#[trigger] lowercase(s)[i]) as int == s[i] as int + (if 'A'
                <= s[i] <= 'Z' {
                32int
            } else {
                0int
            }),
{
    assert forall|i: int| 0 <= i < s.len() implies (#[trigger] lowercase(s)[i]) as int == s[i] as int
        + (if 'A' <= s[i] <= 'Z' {
        32int
    } else {
        0int
    }) by {
        assert(lowercase(s)[i] == ascii_lower(s[i]));
    }
}

} // verus!
