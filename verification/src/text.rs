//! Small pieces of text.
use vstd::prelude::*;

verus! {

/// `String::push` of the standard library appends one character.
pub assume_specification[ std::string::String::push ](s: &mut std::string::String, ch: char)
    ensures
        final(s)@ == old(s)@.push(ch),
;

/// The decimal digit for `d`.
pub open spec fn digit(d: nat) -> char {
    if d == 0 {
        '0'
    } else if d == 1 {
        '1'
    } else if d == 2 {
        '2'
    } else if d == 3 {
        '3'
    } else if d == 4 {
        '4'
    } else if d == 5 {
        '5'
    } else if d == 6 {
        '6'
    } else if d == 7 {
        '7'
    } else if d == 8 {
        '8'
    } else {
        '9'
    }
}

/// The decimal notation of `n`.
pub open spec fn decimal(n: nat) -> Seq<char>
    decreases n,
{
    if n < 10 {
        seq![digit(n)]
    } else {
        decimal(n / 10).push(digit(n % 10))
    }
}

/// Appends the decimal notation of `n` to `out`.
pub fn push_decimal(out: &mut String, n: u64)
    ensures
        final(out)@ == old(out)@ + decimal(n as nat),
    decreases n,
{
    if n >= 10 {
        push_decimal(out, n / 10);
    }
    let d: u64 = n % 10;
    let c = if d == 0 {
        '0'
    } else if d == 1 {
        '1'
    } else if d == 2 {
        '2'
    } else if d == 3 {
        '3'
    } else if d == 4 {
        '4'
    } else if d == 5 {
        '5'
    } else if d == 6 {
        '6'
    } else if d == 7 {
        '7'
    } else if d == 8 {
        '8'
    } else {
        '9'
    };
    out.push(c);
    assert(out@ =~= old(out)@ + decimal(n as nat));
}

/// `n` times the character `c`.
pub open spec fn repeated(c: char, n: nat) -> Seq<char> {
    Seq::new(n, |i: int| c)
}

/// Appends the character `c` to `out`, `n` times.
pub fn push_repeated(out: &mut String, c: char, n: usize)
    ensures
        final(out)@ == old(out)@ + repeated(c, n as nat),
{
    for i in 0..n
        invariant
            out@ == old(out)@ + repeated(c, i as nat),
    {
        out.push(c);
        assert(out@ =~= old(out)@ + repeated(c, (i + 1) as nat));
    }
}

/// How many digits the decimal notation of `n` has.
pub fn decimal_len(n: u64) -> (len: usize)
    ensures
        len == decimal(n as nat).len(),
        1 <= len <= 20,
{
    let mut rest: u64 = n;
    let mut len: usize = 1;
    assert(pow10(19) == 10_000_000_000_000_000_000) by {
        reveal_with_fuel(pow10, 20);
    }
    assert(n < 10 * pow10(19));
    while rest >= 10
        invariant
            1 <= len <= 20,
            rest < 10 * pow10((20 - len) as nat),
            len - 1 + decimal(rest as nat).len() == decimal(n as nat).len(),
        decreases rest,
    {
        if len == 20 {
            assert(pow10(0) == 1);
        }
        rest = rest / 10;
        len = len + 1;
    }
    len
}

/// The `k`-th power of ten.
spec fn pow10(k: nat) -> int
    decreases k,
{
    if k == 0 {
        1
    } else {
        10 * pow10((k - 1) as nat)
    }
}

/// Whether `c` has the Unicode property `White_Space`.
pub open spec fn is_white(c: char) -> bool {
    let n = c as u32;
    ||| 0x9 <= n <= 0xd
    ||| n == 0x20
    ||| n == 0x85
    ||| n == 0xa0
    ||| n == 0x1680
    ||| 0x2000 <= n <= 0x200a
    ||| n == 0x2028
    ||| n == 0x2029
    ||| n == 0x202f
    ||| n == 0x205f
    ||| n == 0x3000
}

/// Tells whether `c` has the Unicode property `White_Space`.
pub fn is_whitespace(c: char) -> (w: bool)
    ensures
        w == is_white(c),
{
    let n: u32 = c as u32;
    (0x9 <= n && n <= 0xd) || n == 0x20 || n == 0x85 || n == 0xa0 || n == 0x1680 || (0x2000 <= n
        && n <= 0x200a) || n == 0x2028 || n == 0x2029 || n == 0x202f || n == 0x205f || n == 0x3000
}

/// The words of `text`, which white space separates.
pub open spec fn words(text: Seq<char>) -> Seq<Seq<char>>
    decreases text.len(),
{
    if text.len() == 0 {
        Seq::empty()
    } else {
        let before = text.drop_last();
        let earlier = words(before);
        if is_white(text.last()) {
            earlier
        } else if before.len() == 0 || is_white(before.last()) {
            earlier.push(seq![text.last()])
        } else {
            earlier.drop_last().push(earlier.last().push(text.last()))
        }
    }
}

/// Splits `text` at white space.
pub fn split_words(text: &str) -> (list: Vec<String>)
    ensures
        list@.len() == words(text@).len(),
        forall|i: int| 0 <= i < list@.len() ==> #[trigger] list@[i]@ == words(text@)[i],
{
    let mut list: Vec<String> = Vec::new();
    let mut current = String::new();
    let mut within = false;
    for c in it: text.chars()
        invariant
            it.seq() == text@,
            within == (it.index() > 0 && !is_white(text@[it.index() - 1])),
            within ==> {
                &&& words(text@.take(it.index())).len() == list@.len() + 1
                &&& words(text@.take(it.index())).last() == current@
            },
            !within ==> words(text@.take(it.index())).len() == list@.len(),
            !within ==> current@.len() == 0,
            forall|i: int|
                0 <= i < list@.len() ==> #[trigger] list@[i]@ == words(text@.take(it.index()))[i],
    {
        let ghost seen = text@.take(it.index());
        let ghost more = text@.take(it.index() + 1);
        assert(more.drop_last() =~= seen);
        assert(more.last() == c);
        if is_whitespace(c) {
            if within {
                list.push(current);
                current = String::new();
            }
            within = false;
        } else {
            current.push(c);
            within = true;
        }
    }
    assert(text@.take(text@.len() as int) =~= text@);
    if within {
        list.push(current);
    }
    list
}

/// The characters of `text` that are not white space, in their order.
pub open spec fn without_white(text: Seq<char>) -> Seq<char>
    decreases text.len(),
{
    if text.len() == 0 {
        Seq::empty()
    } else if is_white(text.last()) {
        without_white(text.drop_last())
    } else {
        without_white(text.drop_last()).push(text.last())
    }
}

/// All the words, one after the other.
pub open spec fn joined(list: Seq<Seq<char>>) -> Seq<char>
    decreases list.len(),
{
    if list.len() == 0 {
        Seq::empty()
    } else {
        joined(list.drop_last()) + list.last()
    }
}

/// No word is empty or holds white space, and together they hold everything else that the
/// text holds.
pub proof fn words_hold_the_rest(text: Seq<char>)
    ensures
        forall|i: int| 0 <= i < words(text).len() ==> #[trigger] words(text)[i].len() > 0,
        forall|i: int, j: int|
            0 <= i < words(text).len() && 0 <= j < words(text)[i].len() ==> !is_white(
                #[trigger] words(text)[i][j],
            ),
        joined(words(text)) == without_white(text),
    decreases text.len(),
{
    if text.len() > 0 {
        let before = text.drop_last();
        let earlier = words(before);
        let all = words(text);
        words_hold_the_rest(before);
        if is_white(text.last()) {
        } else if before.len() == 0 || is_white(before.last()) {
            assert(all.drop_last() =~= earlier);
            assert(joined(all) =~= joined(earlier).push(text.last()));
        } else {
            lemma_within_word(before);
            assert(all.drop_last() =~= earlier.drop_last());
            assert(joined(all) =~= joined(earlier).push(text.last()));
            assert(earlier.last() == earlier[earlier.len() - 1]);
            assert forall|i: int, j: int|
                0 <= i < all.len() && 0 <= j < all[i].len() implies !is_white(
                #[trigger] all[i][j],
            ) by {
                if i < all.len() - 1 {
                    assert(all[i] == earlier[i]);
                } else if j < earlier.last().len() {
                    assert(all[i][j] == earlier[earlier.len() - 1][j]);
                }
            }
        }
    }
}

/// A text that ends within a word has one.
proof fn lemma_within_word(text: Seq<char>)
    requires
        text.len() > 0,
        !is_white(text.last()),
    ensures
        words(text).len() > 0,
{
}

/// The number that a row of decimal digits stands for.
pub open spec fn read_decimal(text: Seq<char>) -> int
    decreases text.len(),
{
    if text.len() == 0 {
        0
    } else {
        10 * read_decimal(text.drop_last()) + (text.last() as int - 48)
    }
}

/// The decimal notation of a number is a row of digits without a leading zero that stands
/// for that number.
pub proof fn decimals_read_back(n: nat)
    ensures
        read_decimal(decimal(n)) == n,
        decimal(n).len() > 0,
        forall|i: int| 0 <= i < decimal(n).len() ==> 48 <= #[trigger] decimal(n)[i] as int <= 57,
        n > 0 ==> decimal(n)[0] != '0',
        n == 0 ==> decimal(n) == seq!['0'],
    decreases n,
{
    reveal_with_fuel(read_decimal, 2);
    if n >= 10 {
        decimals_read_back(n / 10);
        assert(decimal(n).drop_last() =~= decimal(n / 10));
        assert(digit(n % 10) as int == 48 + n % 10);
    } else {
        assert(decimal(n).drop_last() =~= Seq::<char>::empty());
        assert(digit(n) as int == 48 + n);
    }
}

/// A repeated character is nothing else, as often as asked.
pub proof fn repetitions_are_even(c: char, m: nat, n: nat)
    ensures
        repeated(c, n).len() == n,
        forall|i: int| 0 <= i < n ==> #[trigger] repeated(c, n)[i] == c,
        repeated(c, m) + repeated(c, n) == repeated(c, m + n),
{
    assert(repeated(c, m) + repeated(c, n) =~= repeated(c, m + n));
}

/// White space divides a text: its words are those before it and those after it.
pub proof fn white_space_divides(a: Seq<char>, c: char, b: Seq<char>)
    requires
        is_white(c),
    ensures
        words(a + seq![c] + b) == words(a) + words(b),
    decreases b.len(),
{
    let text = a + seq![c] + b;
    if b.len() == 0 {
        assert(text.drop_last() =~= a);
        assert(text.last() == c);
        assert(words(a) + words(b) =~= words(a));
    } else {
        let shorter = b.drop_last();
        white_space_divides(a, c, shorter);
        assert(text.drop_last() =~= a + seq![c] + shorter);
        let earlier = words(a) + words(shorter);
        if is_white(b.last()) {
        } else if shorter.len() == 0 {
            assert((a + seq![c] + shorter).last() == c);
            assert(words(shorter) =~= Seq::empty());
            assert(words(text) =~= words(a) + words(b));
        } else if is_white(shorter.last()) {
            assert((a + seq![c] + shorter).last() == shorter.last());
            assert(words(text) =~= words(a) + words(b));
        } else {
            assert((a + seq![c] + shorter).last() == shorter.last());
            lemma_within_word(shorter);
            assert(earlier.last() == words(shorter).last());
            assert(words(text) =~= words(a) + words(b));
        }
    }
}

/// A text without white space is one word, and an empty text none.
pub proof fn unbroken_text_is_one_word(text: Seq<char>)
    requires
        forall|i: int| 0 <= i < text.len() ==> !is_white(#[trigger] text[i]),
    ensures
        words(text) == (if text.len() == 0 {
            Seq::<Seq<char>>::empty()
        } else {
            seq![text]
        }),
    decreases text.len(),
{
    if text.len() > 0 {
        let before = text.drop_last();
        assert forall|i: int| 0 <= i < before.len() implies !is_white(#[trigger] before[i]) by {
            assert(before[i] == text[i]);
        }
        unbroken_text_is_one_word(before);
        assert(text.last() == text[text.len() - 1]);
        assert(before.push(text.last()) =~= text);
        if before.len() > 0 {
            assert(before.last() == before[before.len() - 1]);
            assert(words(before).last() == before);
            assert(words(text) =~= seq![text]);
        } else {
            assert(seq![text.last()] =~= text);
            assert(words(text) =~= seq![text]);
        }
    }
}

/// White space are the tabulators and line ends of ASCII, the spaces of all widths, and the
/// line and paragraph separators; nothing else is.
pub proof fn white_space_is_listed(c: char)
    ensures
        is_white(c) <==> c == '\t' || c == '\n' || c == '\u{b}' || c == '\u{c}' || c == '\r'
            || c == ' ' || c == '\u{85}' || c == '\u{a0}' || c == '\u{1680}' || c == '\u{2000}'
            || c == '\u{2001}' || c == '\u{2002}' || c == '\u{2003}' || c == '\u{2004}'
            || c == '\u{2005}' || c == '\u{2006}' || c == '\u{2007}' || c == '\u{2008}'
            || c == '\u{2009}' || c == '\u{200a}' || c == '\u{2028}' || c == '\u{2029}'
            || c == '\u{202f}' || c == '\u{205f}' || c == '\u{3000}',
{
}

} // verus!
