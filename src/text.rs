//! The document model: lines joined by newlines, each line holding the
//! editable content and, after a tab, an optional comment.
use vstd::prelude::*;

verus! {

broadcast use vstd::string::axiom_spec_iter;

/// The views of a sequence of strings.
pub open spec fn views(v: Seq<String>) -> Seq<Seq<char>> {
    v.map_values(|l: String| l@)
}

/// The lines joined with one newline between two neighbours, none at the end.
pub open spec fn join_lines(lines: Seq<Seq<char>>) -> Seq<char>
    decreases lines.len(),
{
    if lines.len() == 0 {
        Seq::empty()
    } else if lines.len() == 1 {
        lines[0]
    } else {
        join_lines(lines.drop_last()) + seq!['\n'] + lines.last()
    }
}

/// `s` cut at every newline; the newlines themselves are dropped, and a text
/// without newlines is one line (the empty text is one empty line).
pub open spec fn split_lines(s: Seq<char>) -> Seq<Seq<char>>
    decreases s.len(),
{
    if s.len() == 0 {
        seq![Seq::empty()]
    } else {
        let prev = split_lines(s.drop_last());
        if s.last() == '\n' {
            prev.push(Seq::empty())
        } else {
            prev.update(prev.len() - 1, prev.last().push(s.last()))
        }
    }
}

/// `s` without its last character where that is a newline.
pub open spec fn strip_newline(s: Seq<char>) -> Seq<char> {
    if s.len() > 0 && s.last() == '\n' {
        s.drop_last()
    } else {
        s
    }
}

/// The lines of an edited document: at most one trailing newline is ignored.
pub open spec fn read_lines(s: Seq<char>) -> Seq<Seq<char>> {
    split_lines(strip_newline(s))
}

/// The part of a line before its first tab, or the whole line without a tab.
pub open spec fn content_part(line: Seq<char>) -> Seq<char>
    decreases line.len(),
{
    if line.len() == 0 {
        line
    } else if line[0] == '\t' {
        Seq::empty()
    } else {
        seq![line[0]] + content_part(line.drop_first())
    }
}

/// The line that stands for an item: its content, then a tab and the comment
/// where the comment is not empty.
pub open spec fn line_of(content: Seq<char>, comment: Seq<char>) -> Seq<char> {
    if comment.len() == 0 {
        content
    } else {
        content + seq!['\t'] + comment
    }
}

/// The characters of `s`, one entry each.
pub fn chars_of(s: &str) -> (r: Vec<char>)
    ensures
        r@ == s@,
{
    let mut r: Vec<char> = Vec::new();
    for c in it: s.chars()
        invariant
            it.seq() == s@,
            r@ == it.seq().take(it.index() as int),
    {
        r.push(c);
    }
    r
}

/// Whether `c` occurs in `s`.
pub fn has_char(s: &str, c: char) -> (r: bool)
    ensures
        r == s@.contains(c),
{
    let cs = chars_of(s);
    let mut i: usize = 0;
    while i < cs.len()
        invariant
            cs@ == s@,
            i <= cs.len(),
            forall|k: int| 0 <= k < i ==> cs@[k] != c,
        decreases cs.len() - i,
    {
        if cs[i] == c {
            assert(s@[i as int] == c);
            return true;
        }
        i = i + 1;
    }
    false
}

/// `content_part` of a line is its prefix up to the first tab.
pub proof fn lemma_content_part_prefix(line: Seq<char>, i: int)
    requires
        0 <= i <= line.len(),
        forall|k: int| 0 <= k < i ==> line[k] != '\t',
        i == line.len() || line[i] == '\t',
    ensures
        content_part(line) == line.take(i),
    decreases i,
{
    if i == 0 {
        if line.len() > 0 {
            assert(line[0] == '\t');
        }
        assert(line.take(0) =~= Seq::<char>::empty());
    } else {
        let rest = line.drop_first();
        assert forall|k: int| 0 <= k < i - 1 implies rest[k] != '\t' by {
            assert(rest[k] == line[k + 1]);
        }
        if i - 1 < rest.len() {
            assert(rest[i - 1] == line[i]);
        }
        lemma_content_part_prefix(rest, i - 1);
        assert(seq![line[0]] + rest.take(i - 1) =~= line.take(i));
    }
}

/// The content part of one line of the document.
pub fn content_of_line(line: &str) -> (r: String)
    ensures
        r@ == content_part(line@),
{
    let cs = chars_of(line);
    let mut i: usize = 0;
    while i < cs.len() && cs[i] != '\t'
        invariant
            cs@ == line@,
            i <= cs.len(),
            forall|k: int| 0 <= k < i ==> cs@[k] != '\t',
        decreases cs.len() - i,
    {
        i = i + 1;
    }
    proof {
        lemma_content_part_prefix(line@, i as int);
    }
    let part = line.substring_char(0, i);
    assert(part@ =~= line@.take(i as int));
    String::from_str(part)
}

/// The lines joined with newlines, none at the end.
pub fn join_document(lines: &Vec<String>) -> (r: String)
    ensures
        r@ == join_lines(views(lines@)),
{
    let mut r = String::new();
    let mut i: usize = 0;
    while i < lines.len()
        invariant
            i <= lines.len(),
            r@ == join_lines(views(lines@).take(i as int)),
        decreases lines.len() - i,
    {
        let ghost before = r@;
        if i > 0 {
            r.append("\n");
        }
        r.append(lines[i].as_str());
        proof {
            reveal_strlit("\n");
            let vs = views(lines@);
            assert(vs.take(i + 1).drop_last() =~= vs.take(i as int));
            if i == 0 {
                assert(r@ =~= vs.take(1)[0]);
            } else {
                assert(r@ =~= before + seq!['\n'] + vs.take(i + 1).last());
            }
        }
        i = i + 1;
    }
    assert(views(lines@).take(lines.len() as int) =~= views(lines@));
    r
}

/// The lines of an edited document, after at most one trailing newline is taken off.
pub fn split_document(text: &str) -> (r: Vec<String>)
    ensures
        views(r@) == read_lines(text@),
{
    let cs = chars_of(text);
    let mut n: usize = cs.len();
    if n > 0 && cs[n - 1] == '\n' {
        n = n - 1;
    }
    let ghost s = strip_newline(text@);
    assert(s =~= text@.take(n as int));
    let mut lines: Vec<String> = Vec::new();
    let mut start: usize = 0;
    let mut i: usize = 0;
    assert(s.take(0) =~= Seq::<char>::empty());
    assert(views(lines@).push(text@.subrange(0, 0)) =~~= split_lines(s.take(0)));
    while i < n
        invariant
            cs@ == text@,
            n <= cs.len(),
            s == text@.take(n as int),
            start <= i <= n,
            views(lines@).push(text@.subrange(start as int, i as int)) == split_lines(
                s.take(i as int),
            ),
        decreases n - i,
    {
        let ghost prev = views(lines@);
        assert(s.take(i + 1).drop_last() =~= s.take(i as int));
        assert(s.take(i + 1).last() == cs@[i as int]);
        if cs[i] == '\n' {
            let piece = String::from_str(text.substring_char(start, i));
            lines.push(piece);
            assert(views(lines@) =~= prev.push(text@.subrange(start as int, i as int)));
            start = i + 1;
            assert(text@.subrange(i + 1, i + 1) =~= Seq::<char>::empty());
            assert(views(lines@).push(text@.subrange(i + 1, i + 1)) =~~= split_lines(s.take(i + 1)));
        } else {
            let ghost cur = text@.subrange(start as int, i as int);
            assert(text@.subrange(start as int, i + 1) =~= cur.push(cs@[i as int]));
            assert(prev.push(text@.subrange(start as int, i + 1)) =~~= prev.push(cur).update(
                prev.len() as int,
                cur.push(cs@[i as int]),
            ));
            assert(prev.push(text@.subrange(start as int, i + 1)) =~~= split_lines(s.take(i + 1)));
        }
        i = i + 1;
    }
    let ghost prev = views(lines@);
    let last = String::from_str(text.substring_char(start, n));
    lines.push(last);
    assert(views(lines@) =~= prev.push(text@.subrange(start as int, n as int)));
    assert(s.take(n as int) =~= s);
    lines
}

/// A line read back gives the content it was written with: the comment after
/// the tab is dropped, whatever it holds.
pub proof fn lemma_comment_dropped(content: Seq<char>, comment: Seq<char>)
    requires
        !content.contains('\t'),
    ensures
        content_part(content + seq!['\t'] + comment) == content,
        content_part(line_of(content, comment)) == content,
{
    let line = content + seq!['\t'] + comment;
    assert forall|k: int| 0 <= k < content.len() implies line[k] != '\t' by {
        assert(line[k] == content[k]);
        if content[k] == '\t' {
            assert(content.contains('\t'));
        }
    }
    lemma_content_part_prefix(line, content.len() as int);
    assert(line.take(content.len() as int) =~= content);
    assert forall|k: int| 0 <= k < content.len() implies content[k] != '\t' by {
        if content[k] == '\t' {
            assert(content.contains('\t'));
        }
    }
    lemma_content_part_prefix(content, content.len() as int);
    assert(content.take(content.len() as int) =~= content);
}

/// Splitting after a newline that is followed by a line without newlines
/// adds that line.
pub proof fn lemma_split_after_newline(x: Seq<char>, last: Seq<char>)
    requires
        !last.contains('\n'),
    ensures
        split_lines(x + seq!['\n'] + last) == split_lines(x).push(last),
    decreases last.len(),
{
    if last.len() == 0 {
        assert(x + seq!['\n'] + last =~= x.push('\n'));
        assert((x.push('\n')).drop_last() =~= x);
        assert(last =~= Seq::<char>::empty());
        assert(split_lines(x + seq!['\n'] + last) =~~= split_lines(x).push(last));
    } else {
        let init = last.drop_last();
        assert(!init.contains('\n')) by {
            if init.contains('\n') {
                let k = choose|k: int| 0 <= k < init.len() && init[k] == '\n';
                assert(last[k] == '\n');
            }
        }
        lemma_split_after_newline(x, init);
        let s = x + seq!['\n'] + last;
        assert(s.drop_last() =~= x + seq!['\n'] + init);
        assert(s.last() == last.last());
        assert(last.last() != '\n') by {
            if last.last() == '\n' {
                assert(last[last.len() - 1] == '\n');
            }
        }
        assert(init.push(last.last()) =~= last);
        assert(split_lines(s) =~~= split_lines(x).push(last));
    }
}

/// A text without newlines is one line.
pub proof fn lemma_split_single(s: Seq<char>)
    requires
        !s.contains('\n'),
    ensures
        split_lines(s) == seq![s],
    decreases s.len(),
{
    if s.len() > 0 {
        let init = s.drop_last();
        assert(!init.contains('\n')) by {
            if init.contains('\n') {
                let k = choose|k: int| 0 <= k < init.len() && init[k] == '\n';
                assert(s[k] == '\n');
            }
        }
        lemma_split_single(init);
        assert(s.last() != '\n') by {
            if s.last() == '\n' {
                assert(s[s.len() - 1] == '\n');
            }
        }
        assert(init.push(s.last()) =~= s);
        assert(split_lines(s) =~~= seq![s]);
    } else {
        assert(split_lines(s) =~~= seq![s]);
    }
}

/// Joining lines without newlines and splitting the result again gives the
/// lines back; a final newline added to the text is ignored.
pub proof fn lemma_join_then_read(lines: Seq<Seq<char>>)
    requires
        lines.len() > 0,
        forall|k: int| 0 <= k < lines.len() ==> !(#[trigger] lines[k]).contains('\n'),
    ensures
        split_lines(join_lines(lines)) == lines,
        read_lines(join_lines(lines) + seq!['\n']) == lines,
    decreases lines.len(),
{
    if lines.len() == 1 {
        lemma_split_single(lines[0]);
        assert(seq![lines[0]] =~= lines);
    } else {
        let init = lines.drop_last();
        lemma_join_then_read(init);
        lemma_split_after_newline(join_lines(init), lines.last());
        assert(init.push(lines.last()) =~= lines);
    }
    let t = join_lines(lines) + seq!['\n'];
    assert(t.drop_last() =~= join_lines(lines));
}

} // verus!
