//! The members of a workspace, as its manifest lists them.
use crate::text::{is_white, is_whitespace};
use vstd::prelude::*;

verus! {

/// What is cut off the ends of a text.
#[derive(Clone, Copy, Debug, PartialEq, Eq, Structural)]
pub enum Margin {
    White,
    Quotes,
}

/// Whether the character `c` is part of a margin.
pub open spec fn is_margin(margin: Margin, c: char) -> bool {
    match margin {
        Margin::White => is_white(c),
        Margin::Quotes => c == '"',
    }
}

/// `text` without the margin that it begins with.
pub open spec fn without_front(text: Seq<char>, margin: Margin) -> Seq<char>
    decreases text.len(),
{
    if text.len() > 0 && is_margin(margin, text.first()) {
        without_front(text.drop_first(), margin)
    } else {
        text
    }
}

/// `text` without the margin that it ends with.
pub open spec fn without_back(text: Seq<char>, margin: Margin) -> Seq<char>
    decreases text.len(),
{
    if text.len() > 0 && is_margin(margin, text.last()) {
        without_back(text.drop_last(), margin)
    } else {
        text
    }
}

/// `text` without its margins.
pub open spec fn trimmed(text: Seq<char>, margin: Margin) -> Seq<char> {
    without_back(without_front(text, margin), margin)
}

/// The pieces that `separator` cuts `text` into.
pub open spec fn pieces(text: Seq<char>, separator: char) -> Seq<Seq<char>>
    decreases text.len(),
{
    if text.len() == 0 {
        seq![Seq::empty()]
    } else {
        let earlier = pieces(text.drop_last(), separator);
        if text.last() == separator {
            earlier.push(Seq::empty())
        } else {
            earlier.drop_last().push(earlier.last().push(text.last()))
        }
    }
}

/// Whether `text` begins with `prefix`.
pub open spec fn begins_with(text: Seq<char>, prefix: Seq<char>) -> bool {
    prefix.len() <= text.len() && text.take(prefix.len() as int) == prefix
}

/// The line `i` of a manifest, without the white space around it.
pub open spec fn line(lines: Seq<Seq<char>>, i: int) -> Seq<char> {
    trimmed(lines[i], Margin::White)
}

/// Whether the first `n` lines end within the workspace section.
pub open spec fn in_workspace(lines: Seq<Seq<char>>, n: nat) -> bool
    decreases n,
{
    if n == 0 {
        false
    } else if line(lines, n - 1) == "[workspace]"@ {
        true
    } else if begins_with(line(lines, n - 1), "["@) {
        false
    } else {
        in_workspace(lines, (n - 1) as nat)
    }
}

/// What `text` holds between its first opening bracket and the next bracket.
pub open spec fn bracketed(text: Seq<char>) -> Option<Seq<char>> {
    let parts = pieces(text, '[');
    if parts.len() > 1 {
        Some(pieces(parts[1], ']')[0])
    } else {
        None
    }
}

/// Whether line `i` is one that lists members.
pub open spec fn lists_members(lines: Seq<Seq<char>>, i: int) -> bool {
    &&& line(lines, i) != "[workspace]"@
    &&& in_workspace(lines, (i + 1) as nat)
    &&& begins_with(line(lines, i), "members"@)
    &&& bracketed(line(lines, i)) is Some
}

/// The name that an entry of a list holds.
pub open spec fn entry_name(entry: Seq<char>) -> Seq<char> {
    trimmed(trimmed(entry, Margin::White), Margin::Quotes)
}

/// The names that the first `n` entries of a list hold, without the empty ones.
pub open spec fn entry_names(entries: Seq<Seq<char>>, n: nat) -> Seq<Seq<char>>
    decreases n,
{
    if n == 0 {
        Seq::empty()
    } else {
        let earlier = entry_names(entries, (n - 1) as nat);
        if entry_name(entries[n - 1]).len() > 0 {
            earlier.push(entry_name(entries[n - 1]))
        } else {
            earlier
        }
    }
}

/// The names that a list holds.
pub open spec fn names_in(list: Seq<char>) -> Seq<Seq<char>> {
    entry_names(pieces(list, ','), pieces(list, ',').len())
}

/// The members that the first list from line `i` on names.
pub open spec fn members_from(lines: Seq<Seq<char>>, i: nat) -> Seq<Seq<char>>
    decreases lines.len() - i,
{
    if i >= lines.len() {
        Seq::empty()
    } else if lists_members(lines, i as int) {
        names_in(bracketed(line(lines, i as int))->0)
    } else {
        members_from(lines, i + 1)
    }
}

/// The members of the workspace that the manifest `text` describes.
pub open spec fn members(text: Seq<char>) -> Seq<Seq<char>> {
    members_from(pieces(text, '\n'), 0)
}

/// Tells whether the character `c` is part of a margin.
fn cuts(margin: Margin, c: char) -> (b: bool)
    ensures
        b == is_margin(margin, c),
{
    match margin {
        Margin::White => is_whitespace(c),
        Margin::Quotes => c == '"',
    }
}

/// Copies the characters of `text` from `start` up to `end`.
fn copied(text: &Vec<char>, start: usize, end: usize) -> (copy: Vec<char>)
    requires
        start <= end <= text@.len(),
    ensures
        copy@ == text@.subrange(start as int, end as int),
{
    let mut copy: Vec<char> = Vec::new();
    for i in start..end
        invariant
            start <= end <= text@.len(),
            copy@ == text@.subrange(start as int, i as int),
    {
        copy.push(text[i]);
        assert(copy@ =~= text@.subrange(start as int, i + 1));
    }
    copy
}

/// Cuts the margins off `text`.
fn trim(text: &Vec<char>, margin: Margin) -> (rest: Vec<char>)
    ensures
        rest@ == trimmed(text@, margin),
{
    let mut start: usize = 0;
    assert(text@.skip(0) =~= text@);
    while start < text.len() && cuts(margin, text[start])
        invariant
            start <= text@.len(),
            without_front(text@, margin) == without_front(text@.skip(start as int), margin),
        decreases text.len() - start,
    {
        assert(text@.skip(start as int).drop_first() =~= text@.skip(start + 1));
        start = start + 1;
    }
    let ghost rest = text@.skip(start as int);
    assert(without_front(text@, margin) == rest);
    let mut end: usize = text.len();
    assert(text@.subrange(start as int, end as int) =~= rest);
    while end > start && cuts(margin, text[end - 1])
        invariant
            start <= end <= text@.len(),
            without_back(rest, margin) == without_back(
                text@.subrange(start as int, end as int),
                margin,
            ),
        decreases end,
    {
        assert(text@.subrange(start as int, end as int).drop_last() =~= text@.subrange(
            start as int,
            end - 1,
        ));
        end = end - 1;
    }
    copied(text, start, end)
}

/// Every text has a piece.
proof fn lemma_pieces(text: Seq<char>, separator: char)
    ensures
        pieces(text, separator).len() > 0,
    decreases text.len(),
{
    if text.len() > 0 {
        lemma_pieces(text.drop_last(), separator);
    }
}

/// What a list of texts looks like.
spec fn views(list: Seq<Vec<char>>) -> Seq<Seq<char>> {
    list.map_values(|v: Vec<char>| v@)
}

/// Cuts `text` into pieces.
fn split(text: &Vec<char>, separator: char) -> (list: Vec<Vec<char>>)
    ensures
        views(list@) == pieces(text@, separator),
{
    let mut list: Vec<Vec<char>> = Vec::new();
    let mut current: Vec<char> = Vec::new();
    assert(text@.take(0) =~= Seq::empty());
    assert(views(list@).push(current@) =~= pieces(text@.take(0), separator));
    for i in 0..text.len()
        invariant
            views(list@).push(current@) == pieces(text@.take(i as int), separator),
    {
        let ghost done = views(list@);
        assert(text@.take(i + 1).drop_last() =~= text@.take(i as int));
        assert(done.push(current@).drop_last() =~= done);
        if text[i] == separator {
            let ghost piece = current@;
            list.push(current);
            current = Vec::new();
            assert(views(list@) =~= done.push(piece));
        } else {
            current.push(text[i]);
        }
        assert(views(list@).push(current@) =~= pieces(text@.take(i + 1), separator));
    }
    assert(text@.take(text@.len() as int) =~= text@);
    let ghost done = views(list@).push(current@);
    list.push(current);
    assert(views(list@) =~= done);
    list
}

/// Reads off the characters of `text`.
fn characters(text: &str) -> (list: Vec<char>)
    ensures
        list@ == text@,
{
    let mut list: Vec<char> = Vec::new();
    for c in it: text.chars()
        invariant
            it.seq() == text@,
            list@ == text@.take(it.index()),
    {
        list.push(c);
        assert(list@ =~= text@.take(it.index() + 1));
    }
    assert(text@.take(text@.len() as int) =~= text@);
    list
}

/// Puts characters together to a text.
fn assembled(list: &Vec<char>) -> (text: String)
    ensures
        text@ == list@,
{
    let mut text = String::new();
    for i in 0..list.len()
        invariant
            text@ == list@.take(i as int),
    {
        text.push(list[i]);
        assert(text@ =~= list@.take(i + 1));
    }
    assert(list@.take(list@.len() as int) =~= list@);
    text
}

/// Tells whether `text` begins with `prefix`.
fn has_prefix(text: &Vec<char>, prefix: &Vec<char>) -> (b: bool)
    ensures
        b == begins_with(text@, prefix@),
{
    if prefix.len() > text.len() {
        return false;
    }
    for i in 0..prefix.len()
        invariant
            prefix@.len() <= text@.len(),
            text@.take(i as int) == prefix@.take(i as int),
    {
        if text[i] != prefix[i] {
            assert(text@.take(prefix@.len() as int)[i as int] == text@[i as int]);
            return false;
        }
        assert(text@.take(i + 1) =~= prefix@.take(i + 1));
    }
    assert(prefix@.take(prefix@.len() as int) =~= prefix@);
    true
}

/// Tells what `text` holds between its first opening bracket and the next bracket.
fn find_bracketed(text: &Vec<char>) -> (inner: Option<Vec<char>>)
    ensures
        inner is Some <==> bracketed(text@) is Some,
        inner matches Some(list) ==> Some(list@) == bracketed(text@),
{
    let parts = split(text, '[');
    assert(views(parts@).len() == parts@.len());
    if parts.len() > 1 {
        assert(views(parts@)[1] == parts@[1]@);
        let mut inner = split(&parts[1], ']');
        proof {
            lemma_pieces(parts@[1]@, ']');
        }
        assert(views(inner@).len() == inner@.len());
        assert(views(inner@)[0] == inner@[0]@);
        Some(inner.remove(0))
    } else {
        None
    }
}

/// Reads the names off a list.
fn read_names(list: &Vec<char>) -> (names: Vec<String>)
    ensures
        names@.len() == names_in(list@).len(),
        forall|i: int| 0 <= i < names@.len() ==> #[trigger] names@[i]@ == names_in(list@)[i],
{
    let entries = split(list, ',');
    assert(views(entries@).len() == entries@.len());
    let mut names: Vec<String> = Vec::new();
    for k in 0..entries.len()
        invariant
            views(entries@) == pieces(list@, ','),
            views(entries@).len() == entries@.len(),
            names@.len() == entry_names(pieces(list@, ','), k as nat).len(),
            forall|i: int|
                0 <= i < names@.len() ==> #[trigger] names@[i]@ == entry_names(
                    pieces(list@, ','),
                    k as nat,
                )[i],
    {
        assert(views(entries@)[k as int] == entries@[k as int]@);
        let bare = trim(&entries[k], Margin::White);
        let name = trim(&bare, Margin::Quotes);
        if name.len() > 0 {
            names.push(assembled(&name));
        }
    }
    names
}

/// Reads the members of a workspace off its manifest: the first list of members within the
/// workspace section, on one line.
pub fn workspace_members(toml: &str) -> (list: Vec<String>)
    ensures
        list@.len() == members(toml@).len(),
        forall|i: int| 0 <= i < list@.len() ==> #[trigger] list@[i]@ == members(toml@)[i],
{
    let text = characters(toml);
    let lines = split(&text, '\n');
    let section = characters("[workspace]");
    let bracket = characters("[");
    let key = characters("members");
    let ghost all = pieces(toml@, '\n');
    assert(views(lines@).len() == lines@.len());
    let mut within = false;
    for i in 0..lines.len()
        invariant
            all == pieces(toml@, '\n'),
            views(lines@) == all,
            views(lines@).len() == lines@.len(),
            section@ == "[workspace]"@,
            bracket@ == "["@,
            key@ == "members"@,
            within == in_workspace(all, i as nat),
            members(toml@) == members_from(all, i as nat),
    {
        assert(views(lines@)[i as int] == lines@[i as int]@);
        let t = trim(&lines[i], Margin::White);
        if same(&t, &section) {
            within = true;
        } else {
            if has_prefix(&t, &bracket) {
                within = false;
            }
            if within && has_prefix(&t, &key) {
                if let Some(inner) = find_bracketed(&t) {
                    return read_names(&inner);
                }
            }
        }
    }
    Vec::new()
}

/// Tells whether two texts are the same.
fn same(a: &Vec<char>, b: &Vec<char>) -> (s: bool)
    ensures
        s == (a@ == b@),
{
    if a.len() != b.len() || !has_prefix(a, b) {
        if a.len() == b.len() {
            assert(a@.take(b@.len() as int) =~= a@);
        }
        false
    } else {
        assert(a@.take(b@.len() as int) =~= a@);
        true
    }
}

/// A name that stands in a list is not empty and neither begins nor ends with a quotation
/// mark.
pub proof fn names_are_bare(entries: Seq<Seq<char>>, n: nat, i: int)
    requires
        n <= entries.len(),
        0 <= i < entry_names(entries, n).len(),
    ensures
        entry_names(entries, n)[i].len() > 0,
        entry_names(entries, n)[i].first() != '"',
        entry_names(entries, n)[i].last() != '"',
    decreases n,
{
    if n > 0 {
        let earlier = entry_names(entries, (n - 1) as nat);
        if i < earlier.len() {
            names_are_bare(entries, (n - 1) as nat, i);
        } else {
            lemma_trimmed(trimmed(entries[n - 1], Margin::White), Margin::Quotes);
        }
    }
}

/// A trimmed text neither begins nor ends with a margin.
proof fn lemma_trimmed(text: Seq<char>, margin: Margin)
    ensures
        trimmed(text, margin).len() > 0 ==> {
            &&& !is_margin(margin, trimmed(text, margin).first())
            &&& !is_margin(margin, trimmed(text, margin).last())
        },
    decreases text.len(),
{
    lemma_front(text, margin);
    lemma_back(without_front(text, margin), margin);
}

/// A text without the margin that it begins with does not begin with one.
proof fn lemma_front(text: Seq<char>, margin: Margin)
    ensures
        without_front(text, margin).len() > 0 ==> !is_margin(
            margin,
            without_front(text, margin).first(),
        ),
    decreases text.len(),
{
    if text.len() > 0 && is_margin(margin, text.first()) {
        lemma_front(text.drop_first(), margin);
    }
}

/// A text without the margin that it ends with does not end with one, and begins as before.
proof fn lemma_back(text: Seq<char>, margin: Margin)
    ensures
        without_back(text, margin).len() > 0 ==> !is_margin(
            margin,
            without_back(text, margin).last(),
        ) && without_back(text, margin).first() == text.first(),
    decreases text.len(),
{
    if text.len() > 0 && is_margin(margin, text.last()) {
        lemma_back(text.drop_last(), margin);
    }
}

/// A text is cut at its first separator, and goes on being cut behind it; where it has none,
/// it is one piece.
pub proof fn separators_divide(first: Seq<char>, rest: Seq<char>, separator: char)
    requires
        forall|i: int| 0 <= i < first.len() ==> #[trigger] first[i] != separator,
    ensures
        pieces(first, separator) == seq![first],
        pieces(first + seq![separator] + rest, separator) == seq![first] + pieces(rest, separator),
    decreases rest.len(),
{
    lemma_one_piece(first, separator);
    let text = first + seq![separator] + rest;
    if rest.len() == 0 {
        assert(text.drop_last() =~= first);
        assert(text.last() == separator);
        assert(pieces(rest, separator) =~= seq![Seq::empty()]);
        assert(pieces(text, separator) =~= seq![first] + pieces(rest, separator));
    } else {
        let shorter = rest.drop_last();
        separators_divide(first, shorter, separator);
        lemma_pieces(shorter, separator);
        assert(text.drop_last() =~= first + seq![separator] + shorter);
        assert(text.last() == rest.last());
        assert((seq![first] + pieces(shorter, separator)).last() == pieces(
            shorter,
            separator,
        ).last());
        assert(pieces(text, separator) =~= seq![first] + pieces(rest, separator));
    }
}

/// A text without separators is one piece.
proof fn lemma_one_piece(text: Seq<char>, separator: char)
    requires
        forall|i: int| 0 <= i < text.len() ==> #[trigger] text[i] != separator,
    ensures
        pieces(text, separator) == seq![text],
    decreases text.len(),
{
    if text.len() == 0 {
        assert(text =~= Seq::empty());
    } else {
        let before = text.drop_last();
        assert forall|i: int| 0 <= i < before.len() implies #[trigger] before[i] != separator by {
            assert(before[i] == text[i]);
        }
        lemma_one_piece(before, separator);
        assert(text.last() == text[text.len() - 1]);
        assert(before.push(text.last()) =~= text);
        assert(pieces(text, separator) =~= seq![text]);
    }
}

/// Quotation marks are the double ones, and white space is what it is elsewhere.
pub proof fn margins_are_two(c: char)
    ensures
        is_margin(Margin::Quotes, c) <==> c == '\"',
        is_margin(Margin::White, c) <==> is_white(c),
{
}

/// A text is freed of all the margin before and behind it, and of nothing else.
pub proof fn margins_are_cut_off(
    front: Seq<char>,
    core: Seq<char>,
    back: Seq<char>,
    margin: Margin,
)
    requires
        forall|i: int| 0 <= i < front.len() ==> is_margin(margin, #[trigger] front[i]),
        forall|i: int| 0 <= i < back.len() ==> is_margin(margin, #[trigger] back[i]),
        core.len() > 0 ==> !is_margin(margin, core.first()) && !is_margin(margin, core.last()),
    ensures
        trimmed(front + core + back, margin) == core,
{
    let rest = core + back;
    assert(front + core + back =~= front + rest);
    if core.len() > 0 {
        assert(rest.first() == core.first());
        lemma_front_goes(front, rest, margin);
        lemma_back_goes(core, back, margin);
    } else {
        let all = front + rest;
        assert forall|i: int| 0 <= i < all.len() implies is_margin(margin, #[trigger] all[i]) by {
            if i >= front.len() {
                assert(all[i] == back[i - front.len()]);
            }
        }
        lemma_front_goes(all, Seq::empty(), margin);
        assert(all + Seq::<char>::empty() =~= all);
        lemma_back_goes(Seq::empty(), Seq::empty(), margin);
        assert(core =~= Seq::empty());
    }
}

/// A margin in front of a text goes.
proof fn lemma_front_goes(front: Seq<char>, rest: Seq<char>, margin: Margin)
    requires
        forall|i: int| 0 <= i < front.len() ==> is_margin(margin, #[trigger] front[i]),
        rest.len() > 0 ==> !is_margin(margin, rest.first()),
    ensures
        without_front(front + rest, margin) == rest,
    decreases front.len(),
{
    if front.len() == 0 {
        assert(front + rest =~= rest);
    } else {
        let fewer = front.drop_first();
        assert forall|i: int| 0 <= i < fewer.len() implies is_margin(
            margin,
            #[trigger] fewer[i],
        ) by {
            assert(fewer[i] == front[i + 1]);
        }
        lemma_front_goes(fewer, rest, margin);
        assert((front + rest).drop_first() =~= fewer + rest);
        assert((front + rest).first() == front[0]);
    }
}

/// A margin behind a text goes.
proof fn lemma_back_goes(core: Seq<char>, back: Seq<char>, margin: Margin)
    requires
        forall|i: int| 0 <= i < back.len() ==> is_margin(margin, #[trigger] back[i]),
        core.len() > 0 ==> !is_margin(margin, core.last()),
    ensures
        without_back(core + back, margin) == core,
    decreases back.len(),
{
    if back.len() == 0 {
        assert(core + back =~= core);
    } else {
        let fewer = back.drop_last();
        assert forall|i: int| 0 <= i < fewer.len() implies is_margin(
            margin,
            #[trigger] fewer[i],
        ) by {
            assert(fewer[i] == back[i]);
        }
        lemma_back_goes(core, fewer, margin);
        assert((core + back).drop_last() =~= core + fewer);
        assert((core + back).last() == back[back.len() - 1]);
    }
}

/// A list stands between the first opening bracket of a line and the next bracket, or the end
/// of the line; a line without an opening bracket has none.
pub proof fn lists_stand_in_brackets(before: Seq<char>, inner: Seq<char>, behind: Seq<char>)
    requires
        forall|i: int| 0 <= i < before.len() ==> #[trigger] before[i] != '[',
        forall|i: int| 0 <= i < inner.len() ==> #[trigger] inner[i] != '[' && inner[i] != ']',
        behind.len() > 0 ==> behind[0] == '[' || behind[0] == ']',
    ensures
        bracketed(before) is None,
        bracketed(before + seq!['['] + inner + behind) == Some(inner),
{
    separators_divide(before, inner + behind, '[');
    assert(before + seq!['['] + (inner + behind) =~= before + seq!['['] + inner + behind);
    lemma_pieces(inner + behind, '[');
    let part = pieces(inner + behind, '[')[0];
    if behind.len() == 0 {
        assert(inner + behind =~= inner);
        lemma_one_piece(inner, '[');
        lemma_one_piece(inner, ']');
    } else {
        let rest = behind.drop_first();
        assert(behind =~= seq![behind[0]] + rest);
        if behind[0] == '[' {
            separators_divide(inner, rest, '[');
            assert(inner + behind =~= inner + seq!['['] + rest);
            assert(part == inner);
            lemma_one_piece(inner, ']');
        } else {
            lemma_first_piece(inner + behind, '[', inner.len() as int + 1);
            assert((inner + behind).take(inner.len() as int + 1) =~= inner + seq![']']);
            let tail = part.skip(inner.len() as int + 1);
            assert(part =~= inner + seq![']'] + tail) by {
                assert(part.take(inner.len() as int + 1) =~= inner + seq![']']);
                assert forall|i: int| 0 <= i < part.len() implies part[i] == (inner + seq![']']
                    + tail)[i] by {
                    if i <= inner.len() {
                        assert(part.take(inner.len() as int + 1)[i] == part[i]);
                    }
                }
            }
            separators_divide(inner, tail, ']');
        }
    }
}

/// The first piece begins as the text does for as long as there is no separator.
proof fn lemma_first_piece(text: Seq<char>, separator: char, n: int)
    requires
        0 <= n <= text.len(),
        forall|i: int| 0 <= i < n ==> #[trigger] text[i] != separator,
    ensures
        pieces(text, separator).len() > 0,
        pieces(text, separator)[0].len() >= n,
        pieces(text, separator)[0].take(n) == text.take(n),
    decreases text.len(),
{
    lemma_pieces(text, separator);
    if n == text.len() {
        lemma_one_piece(text, separator);
    } else {
        let before = text.drop_last();
        assert forall|i: int| 0 <= i < n implies #[trigger] before[i] != separator by {
            assert(before[i] == text[i]);
        }
        lemma_first_piece(before, separator, n);
        assert(before.take(n) =~= text.take(n));
        let earlier = pieces(before, separator);
        if text.last() != separator && earlier.len() == 1 {
            assert(pieces(text, separator)[0] == earlier[0].push(text.last()));
            assert(earlier[0].push(text.last()).take(n) =~= earlier[0].take(n));
        } else {
            assert(pieces(text, separator)[0] == earlier[0]);
        }
    }
}

/// The names of a list are those of its entries, which commas divide; an empty entry has
/// none.
pub proof fn commas_divide_names(entry: Seq<char>, rest: Seq<char>)
    requires
        forall|i: int| 0 <= i < entry.len() ==> #[trigger] entry[i] != ',',
    ensures
        entry_name(entry).len() > 0 ==> names_in(entry) == seq![entry_name(entry)],
        entry_name(entry).len() == 0 ==> names_in(entry) == Seq::<Seq<char>>::empty(),
        names_in(entry + seq![','] + rest) == names_in(entry) + names_in(rest),
{
    separators_divide(entry, rest, ',');
    let one = seq![entry];
    let others = pieces(rest, ',');
    assert(one[0] == entry);
    assert(entry_names(one, 0) =~= Seq::empty());
    assert(entry_names(one, 1) == (if entry_name(entry).len() > 0 {
        entry_names(one, 0).push(entry_name(entry))
    } else {
        entry_names(one, 0)
    }));
    assert(entry_name(entry).len() > 0 ==> names_in(entry) =~= seq![entry_name(entry)]);
    lemma_names_shift(entry, others, others.len());
    assert((one + others).len() == others.len() + 1);
}

/// The names of the entries behind the first one follow those of the first.
proof fn lemma_names_shift(first: Seq<char>, others: Seq<Seq<char>>, n: nat)
    requires
        n <= others.len(),
    ensures
        entry_names(seq![first] + others, n + 1) == entry_names(seq![first], 1) + entry_names(
            others,
            n,
        ),
    decreases n,
{
    let all = seq![first] + others;
    assert(all[n as int] == if n == 0 {
        first
    } else {
        others[n - 1]
    });
    if n == 0 {
        assert(entry_names(all, 0) =~= entry_names(seq![first], 0));
        assert(entry_names(all, 1) =~= entry_names(seq![first], 1));
        assert(entry_names(seq![first], 1) + entry_names(others, 0) =~= entry_names(
            seq![first],
            1,
        ));
    } else {
        lemma_names_shift(first, others, (n - 1) as nat);
        assert(entry_names(all, n + 1) =~= entry_names(seq![first], 1) + entry_names(others, n));
    }
}

/// The name of an entry is what stands between its quotation marks.
pub proof fn names_stand_in_quotes(
    front: Seq<char>,
    open: Seq<char>,
    name: Seq<char>,
    close: Seq<char>,
    back: Seq<char>,
)
    requires
        forall|i: int| 0 <= i < front.len() ==> is_white(#[trigger] front[i]),
        forall|i: int| 0 <= i < back.len() ==> is_white(#[trigger] back[i]),
        forall|i: int| 0 <= i < open.len() ==> #[trigger] open[i] == '\"',
        forall|i: int| 0 <= i < close.len() ==> #[trigger] close[i] == '\"',
        name.len() > 0,
        name.first() != '\"' && name.last() != '\"',
        !is_white(name.first()) && !is_white(name.last()),
    ensures
        entry_name(front + (open + name + close) + back) == name,
{
    let core = open + name + close;
    assert(core.first() == if open.len() > 0 {
        open[0]
    } else {
        name.first()
    });
    assert(core.last() == if close.len() > 0 {
        close[close.len() - 1]
    } else {
        name.last()
    });
    margins_are_cut_off(front, core, back, Margin::White);
    margins_are_cut_off(open, name, close, Margin::Quotes);
}

/// The workspace section begins behind its heading and ends at the next line that begins with
/// a bracket; every other line leaves it as it is. It has not begun before the first line.
pub proof fn sections_have_headings(lines: Seq<Seq<char>>, n: nat)
    ensures
        !in_workspace(lines, 0),
        trimmed(lines[n as int], Margin::White) == seq![
            '[',
            'w',
            'o',
            'r',
            'k',
            's',
            'p',
            'a',
            'c',
            'e',
            ']',
        ] ==> in_workspace(lines, n + 1),
        ({
            let bare = trimmed(lines[n as int], Margin::White);
            bare != seq!['[', 'w', 'o', 'r', 'k', 's', 'p', 'a', 'c', 'e', ']'] && bare.len() > 0
                && bare[0] == '[' ==> !in_workspace(lines, n + 1)
        }),
        ({
            let bare = trimmed(lines[n as int], Margin::White);
            bare.len() == 0 || bare[0] != '[' ==> in_workspace(lines, n + 1) == in_workspace(
                lines,
                n,
            )
        }),
{
    reveal_strlit("[workspace]");
    reveal_strlit("[");
    let bare = line(lines, n as int);
    let heading = seq!['[', 'w', 'o', 'r', 'k', 's', 'p', 'a', 'c', 'e', ']'];
    assert("[workspace]"@ =~= heading);
    assert("["@ =~= seq!['[']);
    if bare.len() > 0 {
        assert(bare.take(1) =~= seq![bare[0]]);
        assert(seq![bare[0]][0] == bare[0]);
        assert(seq!['['][0] == '[');
    }
    assert(heading[0] == '[');
}

/// A line lists members where it stands in the workspace section, begins with the word for
/// them and has a list in brackets.
pub proof fn lists_are_told_by_their_key(lines: Seq<Seq<char>>, i: int)
    requires
        i >= 0,
    ensures
        ({
            let bare = trimmed(lines[i], Margin::White);
            lists_members(lines, i) <==> in_workspace(lines, i as nat) && bare.len() >= 7
                && bare[0] == 'm' && bare[1] == 'e' && bare[2] == 'm' && bare[3] == 'b' && bare[4]
                == 'e' && bare[5] == 'r' && bare[6] == 's' && bracketed(bare) is Some
        }),
{
    let bare = line(lines, i);
    let key = seq!['m', 'e', 'm', 'b', 'e', 'r', 's'];
    reveal_strlit("[workspace]");
    reveal_strlit("members");
    assert("members"@ =~= key);
    sections_have_headings(lines, i as nat);
    if bare.len() >= 7 {
        if bare.take(7) == key {
            assert(forall|k: int| 0 <= k < 7 ==> #[trigger] bare.take(7)[k] == bare[k]);
            assert(bare.take(7)[0] == 'm' && bare.take(7)[1] == 'e' && bare.take(7)[2] == 'm'
                && bare.take(7)[3] == 'b' && bare.take(7)[4] == 'e' && bare.take(7)[5] == 'r'
                && bare.take(7)[6] == 's');
        } else if bare[0] == 'm' && bare[1] == 'e' && bare[2] == 'm' && bare[3] == 'b' && bare[4]
            == 'e' && bare[5] == 'r' && bare[6] == 's' {
            assert(bare.take(7) =~= key);
        }
        if bare == "[workspace]"@ {
            assert(bare[0] == '[');
        }
    }
}

/// The members of a manifest are the names in the first line of it that lists any, and there
/// are none where no line does.
pub proof fn the_first_list_counts(text: Seq<char>, i: int)
    requires
        ({
            let lines = pieces(text, '\n');
            &&& 0 <= i <= lines.len()
            &&& forall|k: int| 0 <= k < i ==> !#[trigger] lists_members(lines, k)
            &&& i < lines.len() ==> lists_members(lines, i)
        }),
    ensures
        ({
            let lines = pieces(text, '\n');
            &&& i < lines.len() ==> bracketed(trimmed(lines[i], Margin::White)) is Some
                && members(text) == names_in(bracketed(trimmed(lines[i], Margin::White))->0)
            &&& i == lines.len() ==> members(text) == Seq::<Seq<char>>::empty()
        }),
{
    lemma_lists_are_reached(pieces(text, '\n'), i, i);
}

/// Lines that list nothing are passed over.
proof fn lemma_lists_are_reached(lines: Seq<Seq<char>>, i: int, n: int)
    requires
        0 <= n <= i <= lines.len(),
        forall|k: int| 0 <= k < i ==> !#[trigger] lists_members(lines, k),
    ensures
        members_from(lines, (i - n) as nat) == members_from(lines, i as nat),
    decreases n,
{
    if n > 0 {
        lemma_lists_are_reached(lines, i, n - 1);
        assert(!lists_members(lines, i - n));
    }
}

} // verus!
