//! The editing engine: items become one document, the edited document
//! becomes a list of changes.
use vstd::prelude::*;
use unicode_width::UnicodeWidthStr;
use crate::error::Error;
use crate::text::{
    content_of_line, content_part, has_char, join_document, join_lines, lemma_comment_dropped,
    lemma_join_then_read, line_of, read_lines, split_document, views,
};

verus! {

broadcast use vstd::std_specs::vec::axiom_spec_into_iter;

/// An item that can be renamed through a line of text.
pub trait TextEditableItem: Sized {
    /// The current content of the item.
    spec fn content_view(&self) -> Seq<char>;

    /// The annotation shown after the content; it is never read back.
    spec fn comment_view(&self) -> Seq<char>;

    /// Whether `new` may become the item's content.
    spec fn accepts(&self, new: Seq<char>) -> bool;

    /// Whether `e` is the error with which the item refuses `new`.
    spec fn rejects_with(&self, new: Seq<char>, e: Error) -> bool;

    /// The text that is edited.
    fn content(&self) -> (r: String)
        ensures
            r@ == self.content_view(),
    ;

    /// The annotation shown after the content.
    fn comment(&self) -> (r: String)
        ensures
            r@ == self.comment_view(),
    ;

    /// Checks a candidate content before it is accepted as a change.
    fn validate(&self, new: &str) -> (r: Result<(), Error>)
        ensures
            match r {
                Ok(()) => self.accepts(new@),
                Err(e) => !self.accepts(new@) && self.rejects_with(new@, e),
            },
    ;
}

/// A change of one item's content.
pub struct Diff<T> {
    /// The content before the edit.
    pub old: String,
    /// The content after the edit.
    pub new: String,
    /// The item that changes.
    pub item: T,
}

/// The changes as (old content, new content, item).
pub open spec fn diff_views<T>(ds: Seq<Diff<T>>) -> Seq<(Seq<char>, Seq<char>, T)> {
    ds.map_values(|d: Diff<T>| (d.old@, d.new@, d.item))
}

/// The line that stands for `item` in the document.
pub open spec fn item_line<T: TextEditableItem>(item: T) -> Seq<char> {
    line_of(item.content_view(), item.comment_view())
}

/// Whether `item` can be written as one line whose content part is its content.
pub open spec fn serializable<T: TextEditableItem>(item: T) -> bool {
    !item.content_view().contains('\t') && !item_line(item).contains('\n')
}

/// The lines of the document for `items`, in their order.
pub open spec fn item_lines<T: TextEditableItem>(items: Seq<T>) -> Seq<Seq<char>> {
    items.map_values(|it: T| item_line(it))
}

/// The error for an item that cannot be written as a line.
pub open spec fn unserializable_error<T: TextEditableItem>(item: T, e: Error) -> bool {
    &&& e is NotEditableItem
    &&& if item.content_view().contains('\t') {
        e->NotEditableItem_0@ == "tab character is not allowed in content"@
    } else {
        e->NotEditableItem_0@ == "newline character is not allowed in content"@
    }
}

/// The candidate contents read from the lines: each line up to its first tab.
pub open spec fn candidates(lines: Seq<Seq<char>>) -> Seq<Seq<char>> {
    lines.map_values(|l: Seq<char>| content_part(l))
}

/// The items whose candidate differs from their content, in order, as
/// (old content, new content, item).
pub open spec fn changes<T: TextEditableItem>(items: Seq<T>, cands: Seq<Seq<char>>) -> Seq<
    (Seq<char>, Seq<char>, T),
>
    decreases items.len(),
{
    if items.len() == 0 {
        Seq::empty()
    } else {
        let n = items.len() - 1;
        let rest = changes(items.drop_last(), cands.take(n));
        if cands[n] == items[n].content_view() {
            rest
        } else {
            rest.push((items[n].content_view(), cands[n], items[n]))
        }
    }
}

/// Whether every item accepts the candidate at its position.
pub open spec fn all_accepted<T: TextEditableItem>(items: Seq<T>, cands: Seq<Seq<char>>) -> bool {
    forall|k: int| 0 <= k < items.len() ==> #[trigger] items[k].accepts(cands[k])
}

/// Whether `e` is the refusal of the first item that does not accept its candidate.
pub open spec fn first_rejection<T: TextEditableItem>(
    items: Seq<T>,
    cands: Seq<Seq<char>>,
    e: Error,
) -> bool {
    exists|k: int|
        0 <= k < items.len() && (forall|j: int| 0 <= j < k ==> #[trigger] items[j].accepts(cands[j]))
            && !items[k].accepts(cands[k]) && items[k].rejects_with(cands[k], e)
}

/// The items together with the lines of their document.
pub struct Editor<T> {
    items: Vec<T>,
    lines: Vec<String>,
}

impl<T> Editor<T> {
    /// The items, in document order.
    pub closed spec fn items(&self) -> Seq<T> {
        self.items@
    }

    /// The current lines of the document, one for each item.
    pub closed spec fn lines(&self) -> Seq<Seq<char>> {
        views(self.lines@)
    }

    #[verifier::type_invariant]
    spec fn one_line_per_item(&self) -> bool {
        self.items@.len() == self.lines@.len()
    }
}

impl<T: TextEditableItem> Editor<T> {

    /// Builds the document for `items`, one line each, in the order given.
    pub fn new(items: Vec<T>) -> (r: Result<Self, Error>)
        ensures
            match r {
                Ok(ed) => {
                    &&& forall|k: int| 0 <= k < items@.len() ==> #[trigger] serializable(items@[k])
                    &&& ed.items() == items@
                    &&& ed.lines() == item_lines(items@)
                },
                Err(e) => exists|k: int|
                    0 <= k < items@.len() && (forall|j: int|
                        0 <= j < k ==> #[trigger] serializable(items@[j]))
                        && !serializable(items@[k]) && unserializable_error(items@[k], e),
            },
    {
        let mut lines: Vec<String> = Vec::new();
        let mut i: usize = 0;
        while i < items.len()
            invariant
                i <= items.len(),
                views(lines@) == item_lines(items@.take(i as int)),
                forall|k: int| 0 <= k < i ==> #[trigger] serializable(items@[k]),
            decreases items.len() - i,
        {
            let item = &items[i];
            let content = item.content();
            if has_char(content.as_str(), '\t') {
                let message = String::from_str("tab character is not allowed in content");
                return Err(Error::NotEditableItem(message));
            }
            let mut line = content.clone();
            let comment = item.comment();
            if !comment.as_str().is_empty() {
                line.append("\t");
                line.append(comment.as_str());
                proof {
                    reveal_strlit("\t");
                }
            }
            assert(line@ =~= item_line(*item));
            if has_char(line.as_str(), '\n') {
                let message = String::from_str("newline character is not allowed in content");
                return Err(Error::NotEditableItem(message));
            }
            let ghost prev = views(lines@);
            lines.push(line);
            assert(views(lines@) =~= prev.push(item_line(items@[i as int])));
            assert(items@.take(i + 1) =~= items@.take(i as int).push(items@[i as int]));
            assert(item_lines(items@.take(i + 1)) =~= item_lines(items@.take(i as int)).push(
                item_line(items@[i as int]),
            ));
            i = i + 1;
        }
        assert(items@.take(i as int) =~= items@);
        Ok(Editor { items, lines })
    }

    /// The document: the lines joined by newlines, without a final newline.
    pub fn document(&self) -> (r: String)
        ensures
            r@ == join_lines(self.lines()),
    {
        join_document(&self.lines)
    }

    /// Takes the edited document in place of the current lines. At most one
    /// trailing newline is ignored; the document must keep one line per item.
    pub fn edit(&mut self, text: &str) -> (r: Result<(), Error>)
        ensures
            final(self).items() == old(self).items(),
            match r {
                Ok(()) => {
                    &&& read_lines(text@).len() == old(self).items().len()
                    &&& final(self).lines() == read_lines(text@)
                },
                Err(e) => {
                    &&& read_lines(text@).len() != old(self).items().len()
                    &&& final(self).lines() == old(self).lines()
                    &&& e is InvalidEditResult
                    &&& e->InvalidEditResult_0@ == "item count mismatch"@
                },
            },
    {
        let lines = split_document(text);
        proof {
            use_type_invariant(&*self);
        }
        if lines.len() != self.items.len() {
            return Err(Error::InvalidEditResult(String::from_str("item count mismatch")));
        }
        self.lines = lines;
        Ok(())
    }

    /// The changes of the edit, in document order: the item at each position
    /// is paired with the line at the same position, whose part before the
    /// first tab is the candidate. Every candidate is validated; the first
    /// refusal stops the whole batch. Items whose candidate equals their
    /// content are dropped.
    pub fn into_diffs(self) -> (r: Result<Vec<Diff<T>>, Error>)
        ensures
            r is Ok <==> all_accepted(self.items(), candidates(self.lines())),
            r matches Ok(ds) ==> diff_views(ds@) == changes(self.items(), candidates(self.lines())),
            r matches Err(e) ==> first_rejection(self.items(), candidates(self.lines()), e),
    {
        proof {
            use_type_invariant(&self);
        }
        let ghost all_items = self.items();
        let ghost cands = candidates(self.lines());
        let ghost orig = self;
        let Editor { items, lines } = self;
        let mut diffs: Vec<Diff<T>> = Vec::new();
        let mut i: usize = 0;
        for item in it: items.into_iter()
            invariant
                it.seq() == all_items,
                orig == self,
                all_items == orig.items(),
                cands == candidates(orig.lines()),
                i == it.index(),
                i <= all_items.len(),
                lines.len() == all_items.len(),
                cands == candidates(views(lines@)),
                forall|k: int| 0 <= k < i ==> #[trigger] all_items[k].accepts(cands[k]),
                diff_views(diffs@) == changes(all_items.take(i as int), cands.take(i as int)),
        {
            assert(item == all_items[i as int]);
            let new = content_of_line(lines[i].as_str());
            assert(new@ == cands[i as int]);
            match item.validate(new.as_str()) {
                Err(e) => {
                    assert(!all_items[i as int].accepts(cands[i as int]));
                    assert(first_rejection(all_items, cands, e));
                    return Err(e);
                },
                Ok(()) => {},
            }
            let old = item.content();
            assert(all_items.take(i + 1).drop_last() =~= all_items.take(i as int));
            assert(cands.take(i + 1).take(i as int) =~= cands.take(i as int));
            if old != new {
                let ghost prev = diff_views(diffs@);
                diffs.push(Diff { old, new, item });
                assert(diff_views(diffs@) =~= prev.push(
                    (all_items[i as int].content_view(), cands[i as int], all_items[i as int]),
                ));
            }
            i = i + 1;
        }
        assert(all_items.take(i as int) =~= all_items);
        assert(cands.take(i as int) =~= cands);
        Ok(diffs)
    }
}

/// The number of terminal columns that `s` takes up.
pub uninterp spec fn display_width(s: Seq<char>) -> nat;

/// Relies on `unicode_width::UnicodeWidthStr::width`: the columns that the
/// string takes up on a terminal; the empty string takes none.
#[verifier::external_body]
fn width_of(s: &str) -> (r: usize)
    ensures
        r == display_width(s@),
        s@.len() == 0 ==> r == 0,
{
    UnicodeWidthStr::width(s)
}

/// The largest display width among the old contents of `ds`, 0 for none.
pub open spec fn widest_old<T>(ds: Seq<Diff<T>>) -> nat
    decreases ds.len(),
{
    if ds.len() == 0 {
        0
    } else {
        let w = display_width(ds.last().old@);
        let rest = widest_old(ds.drop_last());
        if w > rest {
            w
        } else {
            rest
        }
    }
}

/// The largest display width among the new contents of `ds`, 0 for none.
pub open spec fn widest_new<T>(ds: Seq<Diff<T>>) -> nat
    decreases ds.len(),
{
    if ds.len() == 0 {
        0
    } else {
        let w = display_width(ds.last().new@);
        let rest = widest_new(ds.drop_last());
        if w > rest {
            w
        } else {
            rest
        }
    }
}

/// The widths of the old and of the new column when the changes are listed
/// one per row.
pub fn column_widths<T>(diffs: &Vec<Diff<T>>) -> (r: (usize, usize))
    ensures
        r.0 == widest_old(diffs@),
        r.1 == widest_new(diffs@),
{
    let mut old_width: usize = 0;
    let mut new_width: usize = 0;
    let mut i: usize = 0;
    while i < diffs.len()
        invariant
            i <= diffs.len(),
            old_width == widest_old(diffs@.take(i as int)),
            new_width == widest_new(diffs@.take(i as int)),
        decreases diffs.len() - i,
    {
        assert(diffs@.take(i + 1).drop_last() =~= diffs@.take(i as int));
        let w = width_of(diffs[i].old.as_str());
        if w > old_width {
            old_width = w;
        }
        let w = width_of(diffs[i].new.as_str());
        if w > new_width {
            new_width = w;
        }
        i = i + 1;
    }
    assert(diffs@.take(i as int) =~= diffs@);
    (old_width, new_width)
}

/// Where every candidate equals its item's content there is no change.
pub proof fn lemma_no_changes<T: TextEditableItem>(items: Seq<T>, cands: Seq<Seq<char>>)
    requires
        cands.len() == items.len(),
        forall|k: int| 0 <= k < items.len() ==> #[trigger] cands[k] == items[k].content_view(),
    ensures
        changes(items, cands) == Seq::<(Seq<char>, Seq<char>, T)>::empty(),
    decreases items.len(),
{
    if items.len() > 0 {
        let n = items.len() - 1;
        lemma_no_changes(items.drop_last(), cands.take(n));
    }
}

/// Where only the candidate at `i` differs from its item's content, the one
/// change is that item's.
pub proof fn lemma_one_change<T: TextEditableItem>(items: Seq<T>, cands: Seq<Seq<char>>, i: int)
    requires
        cands.len() == items.len(),
        0 <= i < items.len(),
        cands[i] != items[i].content_view(),
        forall|k: int| 0 <= k < items.len() && k != i ==> #[trigger] cands[k] == items[k].content_view(),
    ensures
        changes(items, cands) == seq![(items[i].content_view(), cands[i], items[i])],
    decreases items.len(),
{
    let n = items.len() - 1;
    if n == i {
        lemma_no_changes(items.drop_last(), cands.take(n));
    } else {
        lemma_one_change(items.drop_last(), cands.take(n), i);
    }
}

/// Where only the candidates at `i` and `j` differ from their items'
/// contents, the changes are those two, in document order.
pub proof fn lemma_two_changes<T: TextEditableItem>(
    items: Seq<T>,
    cands: Seq<Seq<char>>,
    i: int,
    j: int,
)
    requires
        cands.len() == items.len(),
        0 <= i < j < items.len(),
        cands[i] != items[i].content_view(),
        cands[j] != items[j].content_view(),
        forall|k: int|
            0 <= k < items.len() && k != i && k != j ==> #[trigger] cands[k]
                == items[k].content_view(),
    ensures
        changes(items, cands) == seq![
            (items[i].content_view(), cands[i], items[i]),
            (items[j].content_view(), cands[j], items[j]),
        ],
    decreases items.len(),
{
    let n = items.len() - 1;
    if n == j {
        lemma_one_change(items.drop_last(), cands.take(n), i);
        assert(changes(items, cands) =~= seq![
            (items[i].content_view(), cands[i], items[i]),
            (items[j].content_view(), cands[j], items[j]),
        ]);
    } else {
        lemma_two_changes(items.drop_last(), cands.take(n), i, j);
    }
}

/// The line of a serializable item reads back as its content, and holds no newline.
pub proof fn lemma_line_reads_back<T: TextEditableItem>(item: T)
    requires
        serializable(item),
    ensures
        content_part(item_line(item)) == item.content_view(),
        !item_line(item).contains('\n'),
{
    lemma_comment_dropped(item.content_view(), item.comment_view());
}

/// The document of serializable items, read back unedited (with the final
/// newline that the editor file gets, or without it), gives each item its
/// own content as candidate, so the edit changes nothing. The items are at
/// least one: the empty document reads as one empty line.
pub proof fn lemma_round_trip<T: TextEditableItem>(items: Seq<T>)
    requires
        items.len() > 0,
        forall|k: int| 0 <= k < items.len() ==> #[trigger] serializable(items[k]),
    ensures
        read_lines(join_lines(item_lines(items)) + seq!['\n']) == item_lines(items),
        candidates(item_lines(items)) == items.map_values(|it: T| it.content_view()),
        changes(items, candidates(item_lines(items))) == Seq::<(Seq<char>, Seq<char>, T)>::empty(),
{
    let lines = item_lines(items);
    assert forall|k: int| 0 <= k < lines.len() implies !(#[trigger] lines[k]).contains('\n') by {
        lemma_line_reads_back(items[k]);
    }
    lemma_join_then_read(lines);
    let cands = candidates(lines);
    assert forall|k: int| 0 <= k < items.len() implies #[trigger] cands[k]
        == items[k].content_view() by {
        lemma_line_reads_back(items[k]);
    }
    assert(cands =~= items.map_values(|it: T| it.content_view()));
    lemma_no_changes(items, cands);
}

/// Swapping two lines of the document of serializable items, whose contents
/// differ, changes exactly those two items, each to the content that now
/// stands at its own position.
pub proof fn lemma_swapped_lines<T: TextEditableItem>(items: Seq<T>, i: int, j: int)
    requires
        0 <= i < j < items.len(),
        forall|k: int| 0 <= k < items.len() ==> #[trigger] serializable(items[k]),
        items[i].content_view() != items[j].content_view(),
    ensures
        ({
            let lines = item_lines(items);
            let swapped = lines.update(i, lines[j]).update(j, lines[i]);
            &&& read_lines(join_lines(swapped) + seq!['\n']) == swapped
            &&& changes(items, candidates(swapped)) == seq![
                (items[i].content_view(), items[j].content_view(), items[i]),
                (items[j].content_view(), items[i].content_view(), items[j]),
            ]
        }),
{
    let lines = item_lines(items);
    let swapped = lines.update(i, lines[j]).update(j, lines[i]);
    assert forall|k: int| 0 <= k < swapped.len() implies !(#[trigger] swapped[k]).contains('\n') by {
        lemma_line_reads_back(items[k]);
        lemma_line_reads_back(items[i]);
        lemma_line_reads_back(items[j]);
    }
    lemma_join_then_read(swapped);
    let cands = candidates(swapped);
    lemma_line_reads_back(items[i]);
    lemma_line_reads_back(items[j]);
    assert(cands[i] == items[j].content_view());
    assert(cands[j] == items[i].content_view());
    assert forall|k: int| 0 <= k < items.len() && k != i && k != j implies #[trigger] cands[k]
        == items[k].content_view() by {
        lemma_line_reads_back(items[k]);
    }
    lemma_two_changes(items, cands, i, j);
}

} // verus!
