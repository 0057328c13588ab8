//! Character-level helpers: turning strings into characters and back,
//! splitting a text into its lines and writing lines back into a text.

use vstd::prelude::*;

verus! {

/// The views of a sequence of strings.
pub open spec fn views(v: Seq<String>) -> Seq<Seq<char>> {
    v.map_values(|s: String| s@)
}

/// `s` holds no line break.
pub open spec fn no_newline(s: Seq<char>) -> bool {
    forall|i: int| 0 <= i < s.len() ==> s[i] != '\n'
}

/// The pieces of `s` between its line breaks, as `str::split('\n')` gives
/// them: one more piece than there are line breaks, the last one after the
/// last line break (empty when `s` ends with one).
pub open spec fn split_lines_spec(s: Seq<char>) -> Seq<Seq<char>>
    decreases s.len(),
{
    if s.len() == 0 {
        seq![Seq::<char>::empty()]
    } else {
        let rest = split_lines_spec(s.drop_last());
        if s.last() == '\n' {
            rest.push(Seq::<char>::empty())
        } else {
            rest.update(rest.len() - 1, rest.last().push(s.last()))
        }
    }
}

/// Each line followed by a line break, one after the other.
pub open spec fn join_lines_spec(lines: Seq<Seq<char>>) -> Seq<char>
    decreases lines.len(),
{
    if lines.len() == 0 {
        Seq::<char>::empty()
    } else {
        join_lines_spec(lines.drop_last()) + lines.last() + seq!['\n']
    }
}

/// The index of the last occurrence of `c` in `s`, or -1 where there is none.
pub open spec fn last_index_of(s: Seq<char>, c: char) -> int
    decreases s.len(),
{
    if s.len() == 0 {
        -1
    } else if s.last() == c {
        s.len() - 1
    } else {
        last_index_of(s.drop_last(), c)
    }
}

pub proof fn lemma_last_index_of_bounds(s: Seq<char>, c: char)
    ensures
        -1 <= last_index_of(s, c) < s.len(),
        last_index_of(s, c) >= 0 ==> s[last_index_of(s, c)] == c,
        forall|j: int| last_index_of(s, c) < j < s.len() ==> s[j] != c,
    decreases s.len(),
{
    if s.len() > 0 {
        lemma_last_index_of_bounds(s.drop_last(), c);
        assert forall|j: int| 0 <= j < s.len() - 1 implies s.drop_last()[j] == s[j] by {}
    }
}

/// Splitting always gives at least one piece.
pub proof fn lemma_split_nonempty(s: Seq<char>)
    ensures
        split_lines_spec(s).len() >= 1,
    decreases s.len(),
{
    if s.len() > 0 {
        lemma_split_nonempty(s.drop_last());
    }
}

/// A line break closes the last piece and opens an empty one.
pub proof fn lemma_split_push_newline(s: Seq<char>)
    ensures
        split_lines_spec(s.push('\n')) == split_lines_spec(s).push(Seq::<char>::empty()),
{
    assert(s.push('\n').drop_last() =~= s);
}

/// Characters without a line break extend the last piece.
pub proof fn lemma_split_append_plain(s: Seq<char>, t: Seq<char>)
    requires
        no_newline(t),
    ensures
        split_lines_spec(s + t) == split_lines_spec(s).update(
            split_lines_spec(s).len() - 1,
            split_lines_spec(s).last() + t,
        ),
    decreases t.len(),
{
    lemma_split_nonempty(s);
    let r = split_lines_spec(s);
    if t.len() == 0 {
        assert(s + t =~= s);
        assert(r.last() + t =~= r.last());
        assert(r.update(r.len() - 1, r.last()) =~= r);
    } else {
        let t0 = t.drop_last();
        let x = t.last();
        assert(no_newline(t0));
        lemma_split_append_plain(s, t0);
        assert((s + t).drop_last() =~= s + t0);
        assert((s + t).last() == x);
        assert(x != '\n');
        let r0 = split_lines_spec(s + t0);
        assert(r0 == r.update(r.len() - 1, r.last() + t0));
        assert(r0.last() == r.last() + t0);
        assert((r.last() + t0).push(x) =~= r.last() + t);
        assert(r0.update(r0.len() - 1, r0.last().push(x)) =~= r.update(r.len() - 1, r.last() + t));
    }
}

/// Writing lines that hold no line break and splitting the text again gives
/// back the lines, and one empty piece after the last line break.
pub proof fn lemma_split_join(lines: Seq<Seq<char>>)
    requires
        forall|i: int| 0 <= i < lines.len() ==> no_newline(#[trigger] lines[i]),
    ensures
        split_lines_spec(join_lines_spec(lines)) == lines.push(Seq::<char>::empty()),
    decreases lines.len(),
{
    if lines.len() == 0 {
        assert(split_lines_spec(join_lines_spec(lines)) =~= lines.push(Seq::<char>::empty()));
    } else {
        let ls = lines.drop_last();
        let l = lines.last();
        assert forall|i: int| 0 <= i < ls.len() implies no_newline(#[trigger] ls[i]) by {
            assert(ls[i] == lines[i]);
        }
        lemma_split_join(ls);
        let j = join_lines_spec(ls);
        assert(no_newline(l)) by {
            assert(l == lines[lines.len() - 1]);
        }
        lemma_split_append_plain(j, l);
        lemma_split_push_newline(j + l);
        assert(join_lines_spec(lines) =~= (j + l).push('\n'));
        let e = Seq::<char>::empty();
        assert(ls.push(e).update(ls.len() as int, ls.push(e).last() + l) =~= lines) by {
            assert(e + l =~= l);
            assert(ls.push(l) =~= lines);
        }
    }
}

/// Appends one character to a string (`String::push`).
#[verifier::external_body]
fn push_char(s: &mut String, c: char)
    ensures
        final(s)@ == old(s)@.push(c),
{
    s.push(c);
}

/// The characters of `s`, in order.
pub fn to_chars(s: &str) -> (v: Vec<char>)
    ensures
        v@ == s@,
{
    let mut v: Vec<char> = Vec::new();
    for c in it: s.chars()
        invariant
            v@ == it.seq().take(it.index() as int),
            it.seq() == s@,
    {
        v.push(c);
    }
    v
}

/// The string made of `chars[lo..hi]`.
pub fn from_chars(chars: &Vec<char>, lo: usize, hi: usize) -> (s: String)
    requires
        lo <= hi <= chars@.len(),
    ensures
        s@ == chars@.subrange(lo as int, hi as int),
{
    let mut s = String::new();
    let mut i: usize = lo;
    while i < hi
        invariant
            lo <= i <= hi <= chars@.len(),
            s@ == chars@.subrange(lo as int, i as int),
        decreases hi - i,
    {
        push_char(&mut s, chars[i]);
        assert(chars@.subrange(lo as int, i + 1) =~= chars@.subrange(lo as int, i as int).push(chars@[i as int]));
        i = i + 1;
    }
    s
}

/// Where `c` last occurs in `chars`, if it does.
pub fn find_last(chars: &Vec<char>, c: char) -> (r: Option<usize>)
    ensures
        match r {
            Some(i) => i as int == last_index_of(chars@, c),
            None => last_index_of(chars@, c) == -1,
        },
{
    let mut i: usize = chars.len();
    assert(chars@.take(i as int) =~= chars@);
    while i > 0
        invariant
            i <= chars@.len(),
            last_index_of(chars@, c) == last_index_of(chars@.take(i as int), c),
        decreases i,
    {
        let ghost t = chars@.take(i as int);
        assert(t.drop_last() =~= chars@.take(i - 1));
        if chars[i - 1] == c {
            return Some(i - 1);
        }
        i = i - 1;
    }
    None
}

/// The views of a sequence of strings after one more string.
pub proof fn lemma_views_push(v: Seq<String>, s: String)
    ensures
        views(v.push(s)) == views(v).push(s@),
{
    assert(views(v.push(s)) =~= views(v).push(s@));
}

/// The lines of `text`, as `text.split('\n')` gives them.
pub fn split_lines(text: &str) -> (lines: Vec<String>)
    ensures
        views(lines@) == split_lines_spec(text@),
{
    let chars = to_chars(text);
    let mut lines: Vec<String> = Vec::new();
    let mut start: usize = 0;
    let mut i: usize = 0;
    assert(chars@.take(0) =~= Seq::<char>::empty());
    assert(chars@.subrange(0, 0) =~= Seq::<char>::empty());
    assert(views(lines@) =~= Seq::<Seq<char>>::empty());
    assert(views(lines@).push(chars@.subrange(0, 0)) =~= split_lines_spec(chars@.take(0)));
    while i < chars.len()
        invariant
            start <= i <= chars@.len(),
            chars@ == text@,
            views(lines@).push(chars@.subrange(start as int, i as int)) == split_lines_spec(
                chars@.take(i as int),
            ),
        decreases chars@.len() - i,
    {
        let ghost before = chars@.take(i as int);
        let ghost cur = chars@.subrange(start as int, i as int);
        assert(chars@.take(i + 1) =~= before.push(chars@[i as int]));
        assert(chars@.take(i + 1).drop_last() =~= before);
        if chars[i] == '\n' {
            let ghost prev = lines@;
            let line = from_chars(&chars, start, i);
            lines.push(line);
            proof {
                lemma_views_push(prev, line);
                assert(chars@.subrange(i + 1, i + 1) =~= Seq::<char>::empty());
            }
            start = i + 1;
        } else {
            proof {
                let r = views(lines@).push(cur);
                assert(chars@.subrange(start as int, i + 1) =~= cur.push(chars@[i as int]));
                assert(r.update(r.len() - 1, r.last().push(chars@[i as int])) =~= views(lines@).push(
                    chars@.subrange(start as int, i + 1),
                ));
            }
        }
        i = i + 1;
    }
    assert(chars@.take(i as int) =~= chars@);
    let ghost prev = lines@;
    let last = from_chars(&chars, start, i);
    lines.push(last);
    proof {
        lemma_views_push(prev, last);
    }
    lines
}

/// Each of `lines` followed by a line break, one after the other.
pub fn join_lines(lines: &Vec<String>) -> (text: String)
    ensures
        text@ == join_lines_spec(views(lines@)),
{
    let mut text = String::new();
    let mut i: usize = 0;
    assert(views(lines@).take(0) =~= Seq::<Seq<char>>::empty());
    while i < lines.len()
        invariant
            i <= lines@.len(),
            text@ == join_lines_spec(views(lines@).take(i as int)),
        decreases lines@.len() - i,
    {
        let ghost t = views(lines@).take(i + 1);
        assert(t.drop_last() =~= views(lines@).take(i as int));
        assert(t.last() == lines@[i as int]@);
        text.append(lines[i].as_str());
        text.append("\n");
        proof {
            reveal_strlit("\n");
        }
        assert(text@ =~= join_lines_spec(t));
        i = i + 1;
    }
    assert(views(lines@).take(i as int) =~= views(lines@));
    text
}

} // verus!
