//! Text as sequences of characters: splitting, wrapping, padding and joining.

use itertools::Itertools;
use vstd::prelude::*;
use vstd::string::*;

verus! {

/// `n` spaces.
pub open spec fn spaces(n: nat) -> Seq<char> {
    Seq::new(n, |i: int| ' ')
}

/// The views of `parts`, in order.
pub open spec fn views(parts: Seq<String>) -> Seq<Seq<char>> {
    Seq::new(parts.len(), |i: int| parts[i]@)
}

/// `parts` one after the other, with `sep` between each two neighbours.
pub open spec fn joined(parts: Seq<Seq<char>>, sep: Seq<char>) -> Seq<char>
    decreases parts.len(),
{
    if parts.len() == 0 {
        Seq::empty()
    } else if parts.len() == 1 {
        parts[0]
    } else {
        joined(parts.drop_last(), sep) + sep + parts.last()
    }
}

/// The pieces of `s` between its newlines: one more than it has newlines.
pub open spec fn split_lines(s: Seq<char>) -> Seq<Seq<char>>
    decreases s.len(),
{
    if s.len() == 0 {
        seq![Seq::empty()]
    } else {
        let before = split_lines(s.drop_last());
        if s.last() == '\n' {
            before.push(Seq::empty())
        } else {
            before.drop_last().push(before.last().push(s.last()))
        }
    }
}

/// `s` with four spaces in place of each tab.
pub open spec fn expand_tabs(s: Seq<char>) -> Seq<char>
    decreases s.len(),
{
    if s.len() == 0 {
        Seq::empty()
    } else if s.last() == '\t' {
        expand_tabs(s.drop_last()) + spaces(4)
    } else {
        expand_tabs(s.drop_last()).push(s.last())
    }
}

/// `s` cut into pieces of `size` characters, the last one shorter where `s`
/// does not divide evenly; no piece at all for the empty text.
pub open spec fn chunked(s: Seq<char>, size: nat) -> Seq<Seq<char>>
    decreases s.len(),
{
    if s.len() == 0 || size == 0 {
        Seq::empty()
    } else if s.len() <= size {
        seq![s]
    } else {
        seq![s.take(size as int)] + chunked(s.skip(size as int), size)
    }
}

/// Every line of `lines` with its tabs expanded and then cut into pieces of
/// `size` characters.
pub open spec fn wrapped(lines: Seq<Seq<char>>, size: nat) -> Seq<Seq<char>>
    decreases lines.len(),
{
    if lines.len() == 0 {
        Seq::empty()
    } else {
        wrapped(lines.drop_last(), size) + chunked(expand_tabs(lines.last()), size)
    }
}

/// `parts` joined by newlines, each but the first behind `pad`.
pub open spec fn behind(parts: Seq<Seq<char>>, pad: Seq<char>) -> Seq<char> {
    joined(
        Seq::new(
            parts.len(),
            |i: int|
                if i == 0 {
                    parts[i]
                } else {
                    pad + parts[i]
                },
        ),
        seq!['\n'],
    )
}

/// `parts` joined by newlines, each but the first behind `indent` spaces. The
/// first stands where the caller has already put the cursor.
pub open spec fn padded(parts: Seq<Seq<char>>, indent: nat) -> Seq<char> {
    behind(parts, spaces(indent))
}

/// Whether `a` comes before `b` as in a dictionary: at the first place where
/// they differ `a` has the lesser character, or `a` ends there and `b` goes on.
pub open spec fn text_before(a: Seq<char>, b: Seq<char>) -> bool
    decreases a.len(),
{
    if b.len() == 0 {
        false
    } else if a.len() == 0 {
        true
    } else if a[0] != b[0] {
        a[0] < b[0]
    } else {
        text_before(a.skip(1), b.skip(1))
    }
}

/// Of two texts either one comes before the other or they are the same, and
/// never two of these at once.
pub proof fn lemma_text_before_total(a: Seq<char>, b: Seq<char>)
    ensures
        !text_before(a, a),
        a != b ==> (text_before(a, b) <==> !text_before(b, a)),
    decreases a.len(),
{
    if a.len() > 0 {
        lemma_text_before_total(a.skip(1), a.skip(1));
    }
    if a.len() > 0 && b.len() > 0 {
        if a[0] == b[0] {
            lemma_text_before_total(a.skip(1), b.skip(1));
            if a.skip(1) == b.skip(1) {
                assert(a =~= seq![a[0]] + a.skip(1));
                assert(b =~= seq![b[0]] + b.skip(1));
            }
        }
    } else if a.len() == 0 && b.len() == 0 {
        assert(a =~= b);
    }
}

/// What comes before a text that comes before a third comes before the third.
pub proof fn lemma_text_before_transitive(a: Seq<char>, b: Seq<char>, c: Seq<char>)
    requires
        text_before(a, b),
        text_before(b, c),
    ensures
        text_before(a, c),
    decreases a.len(),
{
    if a.len() > 0 && a[0] == b[0] && b[0] == c[0] {
        lemma_text_before_transitive(a.skip(1), b.skip(1), c.skip(1));
    }
}

/// The lengths of `lines`, added up.
pub open spec fn total_len(lines: Seq<Seq<char>>) -> nat
    decreases lines.len(),
{
    if lines.len() == 0 {
        0
    } else {
        total_len(lines.drop_last()) + lines.last().len()
    }
}

/// `total_len` goes line by line.
pub proof fn lemma_total_len_prefix(lines: Seq<Seq<char>>, n: int)
    requires
        0 <= n <= lines.len(),
    ensures
        total_len(lines.take(n)) <= total_len(lines),
        n < lines.len() ==> total_len(lines.take(n + 1)) == total_len(lines.take(n))
            + lines[n].len(),
    decreases lines.len(),
{
    if n < lines.len() {
        assert(lines.take(n + 1).drop_last() =~= lines.take(n));
        if n + 1 < lines.len() {
            lemma_total_len_prefix(lines.drop_last(), n + 1);
            assert(lines.drop_last().take(n + 1) =~= lines.take(n + 1));
        } else {
            assert(lines.take(n + 1) =~= lines);
        }
    } else {
        assert(lines.take(n) =~= lines);
    }
}

/// A text has one line at least, and its lines together hold all of it but the
/// newlines.
pub proof fn lemma_split_lines(s: Seq<char>)
    ensures
        split_lines(s).len() >= 1,
        total_len(split_lines(s)) + split_lines(s).len() == s.len() + 1,
    decreases s.len(),
{
    if s.len() == 0 {
        let one = seq![Seq::<char>::empty()];
        assert(one.drop_last() =~= Seq::<Seq<char>>::empty());
        assert(total_len(one.drop_last()) == 0);
        assert(total_len(one) == 0);
    } else {
        lemma_split_lines(s.drop_last());
        let before = split_lines(s.drop_last());
        if s.last() == '\n' {
            let after = before.push(Seq::empty());
            assert(after.drop_last() =~= before);
            assert(total_len(after) == total_len(before));
        } else {
            let after = before.drop_last().push(before.last().push(s.last()));
            assert(after.drop_last() =~= before.drop_last());
            assert(total_len(after) == total_len(before.drop_last()) + before.last().len() + 1);
            assert(total_len(before) == total_len(before.drop_last()) + before.last().len());
        }
    }
}

/// The length of a line and of the lines behind it is the length of both.
pub proof fn lemma_total_len_front(first: Seq<char>, rest: Seq<Seq<char>>)
    ensures
        total_len(seq![first] + rest) == first.len() + total_len(rest),
    decreases rest.len(),
{
    let all = seq![first] + rest;
    if rest.len() == 0 {
        assert(all.drop_last() =~= Seq::<Seq<char>>::empty());
        assert(total_len(all.drop_last()) == 0);
    } else {
        lemma_total_len_front(first, rest.drop_last());
        assert(all.drop_last() =~= seq![first] + rest.drop_last());
        assert(all.last() == rest.last());
    }
}

/// The pieces that a text is cut into hold between one character and `size`
/// characters each and all characters of the text between them, and there are
/// as few of them as that allows.
pub proof fn lemma_chunked(s: Seq<char>, size: nat)
    requires
        size > 0,
    ensures
        forall|i: int|
            0 <= i < chunked(s, size).len() ==> 1 <= (#[trigger] chunked(s, size)[i]).len()
                <= size,
        total_len(chunked(s, size)) == s.len(),
        s.len() <= chunked(s, size).len() * size,
        s.len() > 0 ==> (chunked(s, size).len() - 1) * size < s.len(),
    decreases s.len(),
{
    let pieces = chunked(s, size);
    if s.len() == 0 {
    } else if s.len() <= size {
        assert(pieces.drop_last() =~= Seq::<Seq<char>>::empty());
        assert(total_len(pieces.drop_last()) == 0);
        assert(pieces.len() * size == size) by (nonlinear_arith)
            requires
                pieces.len() == 1,
        ;
        assert((pieces.len() - 1) * size == 0) by (nonlinear_arith)
            requires
                pieces.len() == 1,
        ;
    } else {
        let rest = chunked(s.skip(size as int), size);
        lemma_chunked(s.skip(size as int), size);
        lemma_total_len_front(s.take(size as int), rest);
        assert forall|i: int| 0 <= i < pieces.len() implies 1 <= (#[trigger] pieces[i]).len()
            <= size by {
            if i > 0 {
                assert(pieces[i] == rest[i - 1]);
            }
        }
        assert(pieces.len() * size == rest.len() * size + size) by (nonlinear_arith)
            requires
                pieces.len() == rest.len() + 1,
        ;
        assert((pieces.len() - 1) * size == (rest.len() - 1) * size + size) by (nonlinear_arith)
            requires
                pieces.len() == rest.len() + 1,
        ;
    }
}

/// No line that comes out of wrapping is longer than the size wrapped to.
pub proof fn lemma_wrapped_fits(lines: Seq<Seq<char>>, size: nat)
    requires
        size > 0,
    ensures
        forall|i: int|
            0 <= i < wrapped(lines, size).len() ==> (#[trigger] wrapped(lines, size)[i]).len()
                <= size,
    decreases lines.len(),
{
    if lines.len() > 0 {
        lemma_wrapped_fits(lines.drop_last(), size);
        lemma_chunked(expand_tabs(lines.last()), size);
        let before = wrapped(lines.drop_last(), size);
        let pieces = chunked(expand_tabs(lines.last()), size);
        assert forall|i: int| 0 <= i < wrapped(lines, size).len() implies (#[trigger] wrapped(
            lines,
            size,
        )[i]).len() <= size by {
            if i < before.len() {
                assert(wrapped(lines, size)[i] == before[i]);
            } else {
                assert(wrapped(lines, size)[i] == pieces[i - before.len()]);
            }
        }
    }
}

/// The lines of a text, joined by newlines, are the text.
pub proof fn lemma_join_split(s: Seq<char>)
    ensures
        joined(split_lines(s), seq!['\n']) == s,
    decreases s.len(),
{
    let sep = seq!['\n'];
    if s.len() == 0 {
        assert(s =~= Seq::<char>::empty());
    } else {
        lemma_join_split(s.drop_last());
        lemma_split_lines(s.drop_last());
        let before = split_lines(s.drop_last());
        assert(s =~= s.drop_last().push(s.last()));
        if s.last() == '\n' {
            let after = before.push(Seq::empty());
            assert(after.drop_last() =~= before);
            assert(joined(after, sep) =~= joined(before, sep) + sep + Seq::<char>::empty());
            assert(joined(after, sep) =~= s);
        } else {
            let grown = before.last().push(s.last());
            let after = before.drop_last().push(grown);
            assert(after.drop_last() =~= before.drop_last());
            if before.len() == 1 {
                assert(joined(after, sep) =~= s);
            } else {
                assert(joined(after, sep) =~= joined(before.drop_last(), sep) + sep + grown);
                assert(joined(before, sep) =~= joined(before.drop_last(), sep) + sep
                    + before.last());
                assert(joined(after, sep) =~= s);
            }
        }
    }
}

/// Behind no padding, lines are only joined.
pub proof fn lemma_padded_at_zero(parts: Seq<Seq<char>>)
    ensures
        padded(parts, 0) == joined(parts, seq!['\n']),
{
    let shown = Seq::new(
        parts.len(),
        |i: int|
            if i == 0 {
                parts[i]
            } else {
                spaces(0) + parts[i]
            },
    );
    assert forall|i: int| 0 <= i < parts.len() implies shown[i] == parts[i] by {
        assert(spaces(0) + parts[i] =~= parts[i]);
    }
    assert(shown =~= parts);
}

/// The physical lines of a plain text: `raw` cut at its newlines and, where a
/// wrap size is given, each line with its tabs expanded and cut to that size.
pub open spec fn laid_out(raw: Seq<char>, wrap: Option<nat>) -> Seq<Seq<char>> {
    match wrap {
        Some(size) => wrapped(split_lines(raw), size),
        None => split_lines(raw),
    }
}

/// Calls `itertools::repeat_n` on a space and collects what it yields: the
/// element `n` times over.
#[verifier::external_body]
pub(crate) fn blanks(n: usize) -> (r: String)
    ensures
        r@ == spaces(n as nat),
{
    String::from_iter(itertools::repeat_n(' ', n))
}

/// Calls `Itertools::join`: the first element, then the separator and the next
/// element for each one that follows; the empty string where there is none.
#[verifier::external_body]
pub(crate) fn join_with(parts: &Vec<String>, sep: &str) -> (r: String)
    ensures
        r@ == joined(views(parts@), sep@),
{
    parts.iter().join(sep)
}

/// Calls `Itertools::chunks` and collects each chunk into a `String`: chunks of
/// `size` elements in order, the last one shorter if the elements run out. It
/// panics on a size of 0, which `requires` leaves out.
#[verifier::external_body]
pub(crate) fn chunk_text(chars: &Vec<char>, size: usize) -> (r: Vec<String>)
    requires
        size > 0,
    ensures
        views(r@) == chunked(chars@, size as nat),
{
    let groups = chars.iter().chunks(size);
    groups.into_iter().map(String::from_iter).collect_vec()
}

/// Collects characters into a `String` with `FromIterator`: the same
/// characters in the same order.
#[verifier::external_body]
pub(crate) fn text_of(chars: &Vec<char>) -> (r: String)
    ensures
        r@ == chars@,
{
    chars.iter().collect()
}

/// The characters of `s`, in order.
pub fn chars_of(s: &str) -> (v: Vec<char>)
    ensures
        v@ == s@,
{
    let mut v: Vec<char> = Vec::new();
    for c in it: s.chars()
        invariant
            v@ == it.seq().take(it.index() as int),
            it.seq() == s@,
    {
        v.push(c);
    }
    v
}

/// Whether `a` comes before `b` as in a dictionary.
pub fn comes_before(a: &str, b: &str) -> (r: bool)
    ensures
        r == text_before(a@, b@),
{
    let x = chars_of(a);
    let y = chars_of(b);
    let mut i: usize = 0;
    assert(x@.skip(0) =~= x@);
    assert(y@.skip(0) =~= y@);
    while i < x.len() && i < y.len()
        invariant
            i <= x.len(),
            i <= y.len(),
            x@ == a@,
            y@ == b@,
            text_before(a@, b@) == text_before(x@.skip(i as int), y@.skip(i as int)),
        decreases x.len() - i,
    {
        let p = x[i];
        let q = y[i];
        proof {
            assert(x@.skip(i as int)[0] == x@[i as int]);
            assert(y@.skip(i as int)[0] == y@[i as int]);
            assert(x@.skip(i as int).skip(1) =~= x@.skip(i + 1));
            assert(y@.skip(i as int).skip(1) =~= y@.skip(i + 1));
        }
        if p != q {
            return p < q;
        }
        i = i + 1;
    }
    i < y.len()
}

/// Cuts `chars` at its newlines.
pub fn split_at_newlines(chars: &Vec<char>) -> (lines: Vec<Vec<char>>)
    ensures
        lines@.len() == split_lines(chars@).len(),
        forall|i: int| 0 <= i < lines@.len() ==> (#[trigger] lines@[i])@ == split_lines(chars@)[i],
{
    let mut lines: Vec<Vec<char>> = Vec::new();
    let mut current: Vec<char> = Vec::new();
    let mut i: usize = 0;
    assert(chars@.take(0) =~= Seq::<char>::empty());
    while i < chars.len()
        invariant
            i <= chars.len(),
            lines@.len() + 1 == split_lines(chars@.take(i as int)).len(),
            forall|k: int|
                0 <= k < lines@.len() ==> (#[trigger] lines@[k])@ == split_lines(
                    chars@.take(i as int),
                )[k],
            current@ == split_lines(chars@.take(i as int)).last(),
        decreases chars.len() - i,
    {
        let c = chars[i];
        proof {
            let next = chars@.take(i + 1);
            assert(next.drop_last() =~= chars@.take(i as int));
            assert(next.last() == c);
        }
        if c == '\n' {
            lines.push(current);
            current = Vec::new();
        } else {
            current.push(c);
        }
        i = i + 1;
    }
    assert(chars@.take(i as int) =~= chars@);
    lines.push(current);
    lines
}

/// Puts four spaces in place of each tab.
pub fn expand(chars: &Vec<char>) -> (out: Vec<char>)
    ensures
        out@ == expand_tabs(chars@),
{
    let mut out: Vec<char> = Vec::new();
    let mut i: usize = 0;
    assert(chars@.take(0) =~= Seq::<char>::empty());
    while i < chars.len()
        invariant
            i <= chars.len(),
            out@ == expand_tabs(chars@.take(i as int)),
        decreases chars.len() - i,
    {
        let c = chars[i];
        proof {
            let next = chars@.take(i + 1);
            assert(next.drop_last() =~= chars@.take(i as int));
            assert(next.last() == c);
        }
        if c == '\t' {
            out.push(' ');
            out.push(' ');
            out.push(' ');
            out.push(' ');
            assert(out@ =~= expand_tabs(chars@.take(i as int)) + spaces(4));
        } else {
            out.push(c);
        }
        i = i + 1;
    }
    assert(chars@.take(i as int) =~= chars@);
    out
}

/// The physical lines of `raw`, wrapped to `wrap` characters where it is given.
pub fn lay_out(raw: &str, wrap: Option<usize>) -> (lines: Vec<String>)
    requires
        wrap matches Some(size) ==> size > 0,
    ensures
        views(lines@) == laid_out(
            raw@,
            match wrap {
                Some(size) => Some(size as nat),
                None => None,
            },
        ),
{
    let chars = chars_of(raw);
    let pieces = split_at_newlines(&chars);
    let ghost all = split_lines(raw@);
    let mut lines: Vec<String> = Vec::new();
    let mut i: usize = 0;
    assert(all.take(0) =~= Seq::<Seq<char>>::empty());
    while i < pieces.len()
        invariant
            i <= pieces.len(),
            pieces@.len() == all.len(),
            forall|k: int| 0 <= k < pieces@.len() ==> (#[trigger] pieces@[k])@ == all[k],
            wrap matches Some(size) ==> size > 0,
            wrap matches Some(size) ==> views(lines@) == wrapped(all.take(i as int), size as nat),
            wrap is None ==> views(lines@) == all.take(i as int),
        decreases pieces.len() - i,
    {
        proof {
            let next = all.take(i + 1);
            assert(next.drop_last() =~= all.take(i as int));
            assert(next.last() == pieces@[i as int]@);
        }
        match wrap {
            Some(size) => {
                let expanded = expand(&pieces[i]);
                let mut chunks = chunk_text(&expanded, size);
                let ghost before = lines@;
                lines.append(&mut chunks);
                assert(views(lines@) =~= views(before) + chunked(
                    expand_tabs(pieces@[i as int]@),
                    size as nat,
                ));
            },
            None => {
                let line = text_of(&pieces[i]);
                let ghost before = lines@;
                lines.push(line);
                assert(views(lines@) =~= views(before).push(pieces@[i as int]@));
            },
        }
        i = i + 1;
    }
    assert(all.take(i as int) =~= all);
    lines
}

/// Joins `parts` by newlines, with `pad` before each but the first.
pub fn pad_join(parts: &Vec<String>, pad: &str) -> (r: String)
    ensures
        r@ == behind(views(parts@), pad@),
{
    let mut lines: Vec<String> = Vec::new();
    let mut i: usize = 0;
    while i < parts.len()
        invariant
            i <= parts.len(),
            lines@.len() == i,
            forall|k: int|
                0 <= k < i ==> (#[trigger] lines@[k])@ == if k == 0 {
                    parts@[k]@
                } else {
                    pad@ + parts@[k]@
                },
        decreases parts.len() - i,
    {
        let line = if i == 0 {
            parts[i].clone()
        } else {
            String::from_str(pad).concat(parts[i].as_str())
        };
        lines.push(line);
        i = i + 1;
    }
    assert(views(lines@) =~= Seq::new(
        views(parts@).len(),
        |i: int|
            if i == 0 {
                views(parts@)[i]
            } else {
                pad@ + views(parts@)[i]
            },
    ));
    proof {
        reveal_strlit("\n");
        assert("\n"@ =~= seq!['\n']);
    }
    join_with(&lines, "\n")
}

} // verus!
