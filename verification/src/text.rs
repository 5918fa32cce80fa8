//! Characters, lines and whitespace-separated fields of text.
//!
//! Text is handled as a sequence of characters. A text is cut into pieces at
//! separator characters; the fields of a line are its non-empty pieces
//! between whitespace.

use vstd::prelude::*;

verus! {

/// Whether `c` has the Unicode property `White_Space`.
pub open spec fn is_space(c: char) -> bool {
    let u = c as u32;
    (0x09 <= u <= 0x0D) || u == 0x20 || u == 0x85 || u == 0xA0 || u == 0x1680 || (0x2000 <= u
        <= 0x200A) || u == 0x2028 || u == 0x2029 || u == 0x202F || u == 0x205F || u == 0x3000
}

/// Decides [`is_space`].
pub fn is_whitespace(c: char) -> (b: bool)
    ensures
        b == is_space(c),
{
    let u: u32 = c as u32;
    (0x09 <= u && u <= 0x0D) || u == 0x20 || u == 0x85 || u == 0xA0 || u == 0x1680 || (0x2000 <= u
        && u <= 0x200A) || u == 0x2028 || u == 0x2029 || u == 0x202F || u == 0x205F || u == 0x3000
}

/// Where a text is cut.
#[derive(Clone, Copy, Debug, PartialEq, Eq, Structural)]
pub enum Separator {
    /// At each occurrence of one character.
    Char(char),
    /// At each whitespace character.
    Whitespace,
}

impl Separator {
    /// Whether the text is cut at `c`.
    pub open spec fn cuts(self, c: char) -> bool {
        match self {
            Separator::Char(d) => c == d,
            Separator::Whitespace => is_space(c),
        }
    }

    /// Decides [`Separator::cuts`].
    pub fn matches(&self, c: char) -> (b: bool)
        ensures
            b == self.cuts(c),
    {
        match self {
            Separator::Char(d) => c == *d,
            Separator::Whitespace => is_whitespace(c),
        }
    }
}

/// The pieces of `s` between separators, in order, empty ones included.
///
/// There is always at least one piece: a text without a separator is its own
/// single piece, and each separator closes one piece and opens the next.
pub open spec fn split(s: Seq<char>, sep: Separator) -> Seq<Seq<char>>
    decreases s.len(),
{
    if s.len() == 0 {
        seq![Seq::<char>::empty()]
    } else {
        let before = split(s.drop_last(), sep);
        if sep.cuts(s.last()) {
            before.push(Seq::<char>::empty())
        } else {
            before.drop_last().push(before.last().push(s.last()))
        }
    }
}

/// The lines of `s`: its pieces between line feeds.
pub open spec fn lines(s: Seq<char>) -> Seq<Seq<char>> {
    split(s, Separator::Char('\n'))
}

/// The pieces of `pieces` that are not empty, in order.
pub open spec fn non_empty(pieces: Seq<Seq<char>>) -> Seq<Seq<char>>
    decreases pieces.len(),
{
    if pieces.len() == 0 {
        pieces
    } else if pieces.last().len() == 0 {
        non_empty(pieces.drop_last())
    } else {
        non_empty(pieces.drop_last()).push(pieces.last())
    }
}

/// The whitespace-separated fields of `s`.
pub open spec fn fields(s: Seq<char>) -> Seq<Seq<char>> {
    non_empty(split(s, Separator::Whitespace))
}

/// `s` without its leading whitespace.
pub open spec fn trim_start(s: Seq<char>) -> Seq<char>
    decreases s.len(),
{
    if s.len() > 0 && is_space(s.first()) {
        trim_start(s.drop_first())
    } else {
        s
    }
}

/// `s` without its trailing whitespace.
pub open spec fn trim_end(s: Seq<char>) -> Seq<char>
    decreases s.len(),
{
    if s.len() > 0 && is_space(s.last()) {
        trim_end(s.drop_last())
    } else {
        s
    }
}

/// `s` without its leading and trailing whitespace.
pub open spec fn trim(s: Seq<char>) -> Seq<char> {
    trim_end(trim_start(s))
}

/// The characters of `s` at which `sep` cuts, in order.
pub open spec fn cuts_in(s: Seq<char>, sep: Separator) -> Seq<char>
    decreases s.len(),
{
    if s.len() == 0 {
        s
    } else if sep.cuts(s.last()) {
        cuts_in(s.drop_last(), sep).push(s.last())
    } else {
        cuts_in(s.drop_last(), sep)
    }
}

/// The text made of `pieces` with one of `between` after each piece but
/// the last, for one piece more than there are characters in between.
pub open spec fn joined(pieces: Seq<Seq<char>>, between: Seq<char>) -> Seq<char>
    decreases between.len(),
{
    if between.len() == 0 || pieces.len() == 0 {
        if pieces.len() == 0 {
            Seq::empty()
        } else {
            pieces[0]
        }
    } else {
        joined(pieces.drop_last(), between.drop_last()).push(between.last()) + pieces.last()
    }
}

/// Cutting loses nothing and cuts everywhere: there is one piece more
/// than there are separators in the text, no piece holds a separator, and
/// the pieces put together again with the separators between them are the
/// text.
pub proof fn lemma_split_is_a_cutting(s: Seq<char>, sep: Separator)
    ensures
        split(s, sep).len() == cuts_in(s, sep).len() + 1,
        forall|i: int, j: int|
            0 <= i < split(s, sep).len() && 0 <= j < split(s, sep)[i].len() ==> !sep.cuts(
                #[trigger] split(s, sep)[i][j],
            ),
        joined(split(s, sep), cuts_in(s, sep)) == s,
    decreases s.len(),
{
    let pieces = split(s, sep);
    let between = cuts_in(s, sep);
    if s.len() == 0 {
        assert(joined(pieces, between) == pieces[0]);
    } else {
        let t = s.drop_last();
        let c = s.last();
        lemma_split_is_a_cutting(t, sep);
        let before = split(t, sep);
        let cuts_before = cuts_in(t, sep);
        assert(s == t.push(c));
        if sep.cuts(c) {
            assert(pieces.drop_last() == before);
            assert(between.drop_last() == cuts_before);
            assert(joined(pieces, between) == joined(before, cuts_before).push(c)
                + Seq::<char>::empty());
        } else {
            let open = before.last();
            assert(pieces == before.drop_last().push(open.push(c)));
            assert(pieces.drop_last() == before.drop_last());
            if cuts_before.len() == 0 {
                assert(before.len() == 1);
                assert(joined(before, cuts_before) == open);
                assert(joined(pieces, between) == open.push(c));
            } else {
                assert(joined(before, cuts_before) == joined(
                    before.drop_last(),
                    cuts_before.drop_last(),
                ).push(cuts_before.last()) + open);
                assert(joined(pieces, between) == joined(
                    before.drop_last(),
                    cuts_before.drop_last(),
                ).push(cuts_before.last()) + open.push(c));
                assert(joined(pieces, between) == joined(before, cuts_before).push(c));
            }
        }
    }
}

/// A field is a word: it is not empty and holds no whitespace.
pub proof fn lemma_fields_are_words(s: Seq<char>, i: int)
    requires
        0 <= i < fields(s).len(),
    ensures
        fields(s)[i].len() > 0,
        forall|j: int| 0 <= j < fields(s)[i].len() ==> !is_space(#[trigger] fields(s)[i][j]),
{
    lemma_split_is_a_cutting(s, Separator::Whitespace);
    lemma_non_empty_keeps(split(s, Separator::Whitespace), i);
}

/// Each of the non-empty pieces is one of the pieces, and not empty.
proof fn lemma_non_empty_keeps(pieces: Seq<Seq<char>>, i: int)
    requires
        0 <= i < non_empty(pieces).len(),
    ensures
        non_empty(pieces)[i].len() > 0,
        exists|k: int| 0 <= k < pieces.len() && #[trigger] pieces[k] == non_empty(pieces)[i],
    decreases pieces.len(),
{
    if pieces.len() > 0 {
        let rest = pieces.drop_last();
        if pieces.last().len() > 0 && i == non_empty(rest).len() {
            assert(pieces[pieces.len() - 1] == non_empty(pieces)[i]);
        } else {
            lemma_non_empty_keeps(rest, i);
            let k = choose|k: int| 0 <= k < rest.len() && #[trigger] rest[k] == non_empty(rest)[i];
            assert(pieces[k] == non_empty(pieces)[i]);
        }
    }
}

/// A trimmed text neither begins nor ends with whitespace.
pub proof fn lemma_trim_is_trimmed(s: Seq<char>)
    ensures
        trim(s).len() > 0 ==> !is_space(trim(s).first()) && !is_space(trim(s).last()),
{
    lemma_trim_start(s);
    lemma_trim_end(trim_start(s));
}

/// What is left of a text without its leading whitespace does not begin
/// with whitespace, and it is the end of the text.
proof fn lemma_trim_start(s: Seq<char>)
    ensures
        trim_start(s).len() > 0 ==> !is_space(trim_start(s).first()),
        trim_start(s).len() <= s.len(),
        trim_start(s) == s.skip(s.len() - trim_start(s).len()),
    decreases s.len(),
{
    if s.len() > 0 && is_space(s.first()) {
        lemma_trim_start(s.drop_first());
        let rest = trim_start(s.drop_first());
        assert(s.drop_first().skip(s.len() - 1 - rest.len()) == s.skip(s.len() - rest.len()));
    } else {
        assert(s.skip(0) == s);
    }
}

/// What is left of a text without its trailing whitespace does not end
/// with whitespace, and it is the beginning of the text.
proof fn lemma_trim_end(s: Seq<char>)
    ensures
        trim_end(s).len() > 0 ==> !is_space(trim_end(s).last()),
        trim_end(s) == s.take(trim_end(s).len() as int),
        trim_end(s).len() <= s.len(),
    decreases s.len(),
{
    if s.len() > 0 && is_space(s.last()) {
        lemma_trim_end(s.drop_last());
        let rest = trim_end(s.drop_last());
        assert(s.drop_last().take(rest.len() as int) == s.take(rest.len() as int));
    } else {
        assert(s.take(s.len() as int) == s);
    }
}

/// The views of the vectors of `v`, element by element.
pub open spec fn views(v: Seq<Vec<char>>) -> Seq<Seq<char>> {
    Seq::new(v.len(), |i: int| v[i]@)
}

/// The characters of `s`, one element each.
pub fn chars_of(s: &str) -> (v: Vec<char>)
    ensures
        v@ == s@,
{
    let mut v: Vec<char> = Vec::new();
    for c in it: s.chars()
        invariant
            it.seq() == s@,
            v@ == it.seq().take(it.index() as int),
    {
        v.push(c);
    }
    v
}

/// Appends one character to a string.
///
/// Trusted: this is `String::push` of the standard library, which adds the
/// character at the end and changes nothing else.
#[verifier::external_body]
fn push_char(s: &mut String, c: char)
    ensures
        final(s)@ == old(s)@.push(c),
{
    s.push(c)
}

/// The string made of the characters `v`.
pub fn string_of(v: &Vec<char>) -> (s: String)
    ensures
        s@ == v@,
{
    let mut s = String::new();
    let mut i: usize = 0;
    while i < v.len()
        invariant
            i <= v.len(),
            s@ == v@.take(i as int),
        decreases v.len() - i,
    {
        push_char(&mut s, v[i]);
        assert(v@.take(i + 1) == v@.take(i as int).push(v@[i as int]));
        i += 1;
    }
    assert(v@.take(v.len() as int) == v@);
    s
}

/// Appends the characters `w` to `v`.
pub fn push_all(v: &mut Vec<char>, w: &Vec<char>)
    ensures
        final(v)@ == old(v)@ + w@,
{
    let mut i: usize = 0;
    while i < w.len()
        invariant
            i <= w.len(),
            v@ == old(v)@ + w@.take(i as int),
        decreases w.len() - i,
    {
        v.push(w[i]);
        assert(w@.take(i + 1) == w@.take(i as int).push(w@[i as int]));
        i += 1;
    }
    assert(w@.take(w.len() as int) == w@);
}

/// Appends the text `s` to `v`.
pub fn push_text(v: &mut Vec<char>, s: &str)
    ensures
        final(v)@ == old(v)@ + s@,
{
    let w = chars_of(s);
    push_all(v, &w);
}

/// Whether two character vectors hold the same text.
pub fn same_chars(a: &Vec<char>, b: &Vec<char>) -> (r: bool)
    ensures
        r == (a@ == b@),
{
    if a.len() != b.len() {
        return false;
    }
    let mut i: usize = 0;
    while i < a.len()
        invariant
            i <= a.len(),
            a.len() == b.len(),
            a@.take(i as int) == b@.take(i as int),
        decreases a.len() - i,
    {
        if a[i] != b[i] {
            return false;
        }
        assert(a@.take(i + 1) == a@.take(i as int).push(a@[i as int]));
        assert(b@.take(i + 1) == b@.take(i as int).push(b@[i as int]));
        i += 1;
    }
    assert(a@ == a@.take(a.len() as int));
    assert(b@ == b@.take(b.len() as int));
    true
}

/// Whether the characters `v` spell the text `s`.
pub fn spells(v: &Vec<char>, s: &str) -> (b: bool)
    ensures
        b == (v@ == s@),
{
    let w = chars_of(s);
    same_chars(v, &w)
}

/// Cuts `s` at each separator, as [`split`] says.
pub fn split_chars(s: &Vec<char>, sep: Separator) -> (pieces: Vec<Vec<char>>)
    ensures
        views(pieces@) == split(s@, sep),
{
    let mut done: Vec<Vec<char>> = Vec::new();
    let mut current: Vec<char> = Vec::new();
    let mut i: usize = 0;
    while i < s.len()
        invariant
            i <= s.len(),
            split(s@.take(i as int), sep) == views(done@).push(current@),
        decreases s.len() - i,
    {
        let c = s[i];
        proof {
            let t = s@.take(i + 1);
            assert(t.drop_last() == s@.take(i as int));
            assert(t.last() == c);
        }
        if sep.matches(c) {
            let ghost before = views(done@);
            let ghost closed = current@;
            done.push(current);
            current = Vec::new();
            assert(views(done@) == before.push(closed));
        } else {
            let ghost open = current@;
            current.push(c);
            assert(views(done@).push(open).drop_last() == views(done@));
        }
        i += 1;
    }
    assert(s@.take(s.len() as int) == s@);
    let ghost before = views(done@);
    let ghost closed = current@;
    done.push(current);
    assert(views(done@) == before.push(closed));
    done
}

/// The whitespace-separated fields of `s`, as [`fields`] says.
pub fn fields_of(s: &Vec<char>) -> (found: Vec<Vec<char>>)
    ensures
        views(found@) == fields(s@),
{
    let pieces = split_chars(s, Separator::Whitespace);
    let mut found: Vec<Vec<char>> = Vec::new();
    let mut i: usize = 0;
    while i < pieces.len()
        invariant
            i <= pieces.len(),
            views(found@) == non_empty(views(pieces@).take(i as int)),
        decreases pieces.len() - i,
    {
        proof {
            let t = views(pieces@).take(i + 1);
            assert(t.drop_last() == views(pieces@).take(i as int));
            assert(t.last() == pieces@[i as int]@);
        }
        if pieces[i].len() > 0 {
            let ghost before = views(found@);
            found.push(pieces[i].clone());
            assert(views(found@) == before.push(pieces@[i as int]@));
        }
        i += 1;
    }
    assert(views(pieces@).take(pieces.len() as int) == views(pieces@));
    found
}

/// `s` without its leading and trailing whitespace, as [`trim`] says.
pub fn trimmed(s: &Vec<char>) -> (t: Vec<char>)
    ensures
        t@ == trim(s@),
{
    let mut start: usize = 0;
    assert(s@.skip(0) == s@);
    while start < s.len() && is_whitespace(s[start])
        invariant
            start <= s.len(),
            trim_start(s@) == trim_start(s@.skip(start as int)),
        decreases s.len() - start,
    {
        assert(s@.skip(start as int).drop_first() == s@.skip(start + 1));
        start += 1;
    }
    let mut end: usize = s.len();
    assert(s@.skip(start as int) == s@.subrange(start as int, end as int));
    while end > start && is_whitespace(s[end - 1])
        invariant
            start <= end <= s.len(),
            trim_start(s@) == s@.skip(start as int),
            trim_end(s@.skip(start as int)) == trim_end(s@.subrange(start as int, end as int)),
        decreases end - start,
    {
        assert(s@.subrange(start as int, end as int).drop_last() == s@.subrange(
            start as int,
            end - 1,
        ));
        end -= 1;
    }
    let mut t: Vec<char> = Vec::new();
    let mut i: usize = start;
    while i < end
        invariant
            start <= i <= end <= s.len(),
            t@ == s@.subrange(start as int, i as int),
        decreases end - i,
    {
        t.push(s[i]);
        i += 1;
    }
    t
}

} // verus!
