//! Chat channels as editable items: their kinds, the order in which they
//! are listed, their comments and the rules for their names.
use vstd::prelude::*;
use std::cmp::Ordering;
use crate::args::ChannelFilterArgs;
use crate::bulk_edit::TextEditableItem;
use crate::error::Error;
use crate::text::chars_of;

verus! {

/// The kinds of channel that the tool tells apart.
#[derive(Debug, Clone, Copy, PartialEq, Eq, Structural)]
pub enum ChannelKind {
    Text,
    Voice,
    Category,
    News,
    Forum,
    Stage,
    Other,
}

/// A channel of a guild, with what the listing needs to know about its parent.
#[derive(Debug)]
pub struct ChannelItem {
    /// The channel's id.
    pub id: u64,
    /// The channel's name: the content that is edited.
    pub name: String,
    /// The channel's kind.
    pub kind: ChannelKind,
    /// The category that holds the channel, if any.
    pub parent_id: Option<u64>,
    /// The channel's position among its siblings.
    pub position: u16,
    /// The name of the category that holds the channel, where it is known.
    pub parent_name: Option<String>,
    /// The position of the category that holds the channel, or the channel's
    /// own position where it stands alone or is a category.
    pub category_position: u16,
}

/// `a` before `b` gives `Less`, `a` after `b` gives `Greater`.
pub open spec fn order_of_flags(a: bool, b: bool) -> Ordering {
    if a && !b {
        Ordering::Greater
    } else if !a && b {
        Ordering::Less
    } else {
        Ordering::Equal
    }
}

/// The order of two integers.
pub open spec fn order_of_ints(a: int, b: int) -> Ordering {
    if a < b {
        Ordering::Less
    } else if a > b {
        Ordering::Greater
    } else {
        Ordering::Equal
    }
}

/// The order of two optional ids: no id first, then by id.
pub open spec fn order_of_ids(a: Option<u64>, b: Option<u64>) -> Ordering {
    match (a, b) {
        (None, None) => Ordering::Equal,
        (None, Some(_)) => Ordering::Less,
        (Some(_), None) => Ordering::Greater,
        (Some(x), Some(y)) => order_of_ints(x as int, y as int),
    }
}

impl ChannelItem {
    /// A channel that is neither a category nor inside a known category.
    pub open spec fn uncategorized(&self) -> bool {
        self.kind != ChannelKind::Category && self.parent_name is None
    }

    /// A channel of the voice family, listed after the others of its category.
    pub open spec fn voice_like(&self) -> bool {
        self.kind == ChannelKind::Voice || self.kind == ChannelKind::Stage
    }

    /// The listing order: channels outside any category first; then by the
    /// position of the category; within a category the category itself
    /// first, then text-like channels before voice-like ones; then by parent
    /// id and by position.
    pub open spec fn order(&self, other: &ChannelItem) -> Ordering {
        if self.uncategorized() != other.uncategorized() {
            if self.uncategorized() {
                Ordering::Less
            } else {
                Ordering::Greater
            }
        } else if self.category_position != other.category_position {
            order_of_ints(self.category_position as int, other.category_position as int)
        } else if (self.parent_name is Some) != (other.parent_name is Some) {
            order_of_flags(self.parent_name is Some, other.parent_name is Some)
        } else if self.voice_like() != other.voice_like() {
            order_of_flags(self.voice_like(), other.voice_like())
        } else if self.parent_id != other.parent_id {
            order_of_ids(self.parent_id, other.parent_id)
        } else {
            order_of_ints(self.position as int, other.position as int)
        }
    }

    /// Whether the channel is neither a category nor inside a known category.
    pub fn is_no_categoryzed_channel(&self) -> (r: bool)
        ensures
            r == self.uncategorized(),
    {
        self.kind != ChannelKind::Category && self.parent_name.is_none()
    }

    /// Whether the channel is a voice or a stage channel.
    pub fn is_voice_like_channel(&self) -> (r: bool)
        ensures
            r == self.voice_like(),
    {
        self.kind == ChannelKind::Voice || self.kind == ChannelKind::Stage
    }

    /// Compares two channels in listing order.
    pub fn compare(&self, other: &ChannelItem) -> (r: Ordering)
        ensures
            r == self.order(other),
    {
        let a = self.is_no_categoryzed_channel();
        let b = other.is_no_categoryzed_channel();
        if a && !b {
            return Ordering::Less;
        } else if !a && b {
            return Ordering::Greater;
        }
        if self.category_position < other.category_position {
            return Ordering::Less;
        } else if self.category_position > other.category_position {
            return Ordering::Greater;
        }
        let a = self.parent_name.is_some();
        let b = other.parent_name.is_some();
        if a && !b {
            return Ordering::Greater;
        } else if !a && b {
            return Ordering::Less;
        }
        let a = self.is_voice_like_channel();
        let b = other.is_voice_like_channel();
        if a && !b {
            return Ordering::Greater;
        } else if !a && b {
            return Ordering::Less;
        }
        match (self.parent_id, other.parent_id) {
            (None, Some(_)) => {
                return Ordering::Less;
            },
            (Some(_), None) => {
                return Ordering::Greater;
            },
            (Some(x), Some(y)) => {
                if x < y {
                    return Ordering::Less;
                } else if x > y {
                    return Ordering::Greater;
                }
            },
            (None, None) => {},
        }
        if self.position < other.position {
            Ordering::Less
        } else if self.position > other.position {
            Ordering::Greater
        } else {
            Ordering::Equal
        }
    }
}

/// Whether `a` comes after `b` in listing order.
fn comes_after(a: &ChannelItem, b: &ChannelItem) -> (r: bool)
    ensures
        r == (a.order(b) == Ordering::Greater),
{
    match a.compare(b) {
        Ordering::Greater => true,
        _ => false,
    }
}

/// The listing order is antisymmetric: `a` before `b` exactly when `b` after `a`.
pub proof fn lemma_order_antisymmetric(a: &ChannelItem, b: &ChannelItem)
    ensures
        (a.order(b) == Ordering::Less) <==> (b.order(a) == Ordering::Greater),
        (a.order(b) == Ordering::Equal) <==> (b.order(a) == Ordering::Equal),
{
}

/// The listing order is transitive.
pub proof fn lemma_order_transitive(a: &ChannelItem, b: &ChannelItem, c: &ChannelItem)
    ensures
        a.order(b) != Ordering::Greater && b.order(c) != Ordering::Greater ==> a.order(c)
            != Ordering::Greater,
        a.order(b) == Ordering::Less && b.order(c) != Ordering::Greater ==> a.order(c)
            == Ordering::Less,
{
}

/// Whether the channels stand in listing order.
pub open spec fn listed_in_order(s: Seq<ChannelItem>) -> bool {
    forall|i: int, j: int| 0 <= i < j < s.len() ==> #[trigger] s[i].order(&s[j]) != Ordering::Greater
}

/// The channels in listing order.
pub fn sort_channels(v: Vec<ChannelItem>) -> (r: Vec<ChannelItem>)
    ensures
        listed_in_order(r@),
        r@.to_multiset() == v@.to_multiset(),
{
    broadcast use vstd::seq_lib::group_to_multiset_ensures, vstd::multiset::group_multiset_axioms;

    let mut rest = v;
    let mut r: Vec<ChannelItem> = Vec::new();
    while rest.len() > 0
        invariant
            listed_in_order(r@),
            r@.to_multiset().add(rest@.to_multiset()) == v@.to_multiset(),
        decreases rest.len(),
    {
        let ghost before = rest@;
        let x = rest.pop().unwrap();
        assert(before == rest@.push(x));
        let mut p: usize = 0;
        while p < r.len() && !comes_after(&r[p], &x)
            invariant
                p <= r.len(),
                forall|k: int| 0 <= k < p ==> #[trigger] r@[k].order(&x) != Ordering::Greater,
            decreases r.len() - p,
        {
            p = p + 1;
        }
        let ghost old_r = r@;
        proof {
            assert forall|k: int| p <= k < old_r.len() implies x.order(&#[trigger] old_r[k])
                != Ordering::Greater by {
                lemma_order_antisymmetric(&old_r[p as int], &x);
                lemma_order_transitive(&x, &old_r[p as int], &old_r[k]);
            }
        }
        r.insert(p, x);
        proof {
            assert(r@ == old_r.insert(p as int, x));
            assert forall|i: int, j: int| 0 <= i < j < r@.len() implies #[trigger] r@[i].order(
                &r@[j],
            ) != Ordering::Greater by {
                if i < p && j == p {
                } else if i == p && j > p {
                    assert(r@[j] == old_r[j - 1]);
                } else if i < p && j > p {
                    assert(r@[j] == old_r[j - 1]);
                    assert(old_r[i].order(&old_r[j - 1]) != Ordering::Greater);
                } else if j < p {
                    assert(old_r[i].order(&old_r[j]) != Ordering::Greater);
                } else {
                    assert(r@[i] == old_r[i - 1]);
                    assert(r@[j] == old_r[j - 1]);
                    assert(old_r[i - 1].order(&old_r[j - 1]) != Ordering::Greater);
                }
            }
            let s0 = old_r.take(p as int);
            let s1 = old_r.skip(p as int);
            assert(old_r =~= s0 + s1);
            assert(r@ =~= s0.push(x) + s1);
            vstd::seq_lib::lemma_multiset_commutative(s0, s1);
            vstd::seq_lib::lemma_multiset_commutative(s0.push(x), s1);
            s0.to_multiset_ensures();
            rest@.to_multiset_ensures();
            assert(s0.push(x).to_multiset() =~= s0.to_multiset().insert(x));
            assert(r@.to_multiset() =~= old_r.to_multiset().insert(x));
            assert(rest@.push(x).to_multiset() =~= rest@.to_multiset().insert(x));
            assert(before.to_multiset() =~= rest@.to_multiset().insert(x));
            assert(r@.to_multiset().add(rest@.to_multiset()) =~= old_r.to_multiset().add(
                before.to_multiset(),
            ));
        }
    }
    r
}

/// Whether the regular expression `pattern` matches somewhere in `text`
/// (a pattern that does not compile matches nothing).
pub uninterp spec fn regex_match(pattern: Seq<char>, text: Seq<char>) -> bool;

/// Relies on `regex::Regex::new` and `regex::Regex::is_match`: whether the
/// compiled pattern matches somewhere in `text`.
#[verifier::external_body]
fn pattern_matches(pattern: &str, text: &str) -> (r: bool)
    ensures
        r == regex_match(pattern@, text@),
{
    match regex::Regex::new(pattern) {
        Ok(re) => re.is_match(text),
        Err(_) => false,
    }
}

/// The decimal digit for `d`.
pub open spec fn digit_char(d: nat) -> char {
    seq!['0', '1', '2', '3', '4', '5', '6', '7', '8', '9'][d as int]
}

/// `n` written in decimal, without sign or leading zeros.
pub open spec fn decimal(n: nat) -> Seq<char>
    decreases n,
{
    if n < 10 {
        seq![digit_char(n)]
    } else {
        decimal(n / 10).push(digit_char(n % 10))
    }
}

/// Relies on `u64`'s `Display` (through `to_string`): the number in decimal
/// digits, without sign or leading zeros.
#[verifier::external_body]
fn decimal_text(n: u64) -> (r: String)
    ensures
        r@ == decimal(n as nat),
{
    n.to_string()
}

/// The symbol that stands for a kind of channel in comments.
pub open spec fn kind_symbol(kind: ChannelKind) -> Seq<char> {
    match kind {
        ChannelKind::Text => "\u{1F4DD}"@,
        ChannelKind::Voice => "\u{1F50A}"@,
        ChannelKind::Category => "\u{1F4C1}"@,
        ChannelKind::News => "\u{1F4E3}"@,
        ChannelKind::Forum => "\u{1F4AC}"@,
        ChannelKind::Stage => "\u{1F3AD}"@,
        ChannelKind::Other => "\u{2753}"@,
    }
}

fn kind_symbol_text(kind: ChannelKind) -> (r: &'static str)
    ensures
        r@ == kind_symbol(kind),
{
    match kind {
        ChannelKind::Text => "\u{1F4DD}",
        ChannelKind::Voice => "\u{1F50A}",
        ChannelKind::Category => "\u{1F4C1}",
        ChannelKind::News => "\u{1F4E3}",
        ChannelKind::Forum => "\u{1F4AC}",
        ChannelKind::Stage => "\u{1F3AD}",
        ChannelKind::Other => "\u{2753}",
    }
}

/// The comment of a channel: the kind's symbol, " in " and the category's
/// name where it is known, and the id in parentheses.
pub open spec fn channel_comment(c: &ChannelItem) -> Seq<char> {
    let parent = match c.parent_name {
        Some(p) => " in "@ + p@,
        None => Seq::empty(),
    };
    kind_symbol(c.kind) + parent + " ("@ + decimal(c.id as nat) + ")"@
}

/// The pattern that a name of a channel of `kind` must match: letters,
/// digits, underscores and hyphens, and for categories also spaces.
pub open spec fn name_pattern(kind: ChannelKind) -> Seq<char> {
    if kind == ChannelKind::Category {
        r"^[\-\w ]*$"@
    } else {
        r"^[\-\w]*$"@
    }
}

/// Whether `s` holds two hyphens in a row.
pub open spec fn has_double_hyphen(s: Seq<char>) -> bool {
    exists|i: int| 0 <= i && i + 1 < s.len() && #[trigger] s[i] == '-' && s[i + 1] == '-'
}

/// Whether the length of `s`, in characters, is allowed for a channel name.
pub open spec fn name_length_ok(s: Seq<char>) -> bool {
    2 <= s.len() <= 100
}

/// Whether `s` may become the name of a channel of `kind`.
pub open spec fn valid_channel_name(kind: ChannelKind, s: Seq<char>) -> bool {
    name_length_ok(s) && regex_match(name_pattern(kind), s) && !has_double_hyphen(s)
}

/// Whether `e` is the error that refuses the name `s`.
pub open spec fn name_rejection(s: Seq<char>, e: Error) -> bool {
    let expected = if !name_length_ok(s) {
        "Channel name must be between 2 and 100 characters"@
    } else {
        "Contains characters or patterns that cannot be used"@
    };
    e matches Error::InvalidChannelName { name, message } && name@ == s && message@ == expected
}

/// Whether `s` holds two hyphens in a row.
fn contains_double_hyphen(s: &str) -> (r: bool)
    ensures
        r == has_double_hyphen(s@),
{
    let cs = chars_of(s);
    let mut i: usize = 1;
    while i < cs.len()
        invariant
            cs@ == s@,
            1 <= i,
            forall|k: int|
                0 <= k && k + 1 < i && k + 1 < cs@.len() ==> !(#[trigger] cs@[k] == '-' && cs@[k
                    + 1] == '-'),
        decreases cs.len() - i,
    {
        if cs[i - 1] == '-' && cs[i] == '-' {
            return true;
        }
        i = i + 1;
    }
    false
}

impl TextEditableItem for ChannelItem {
    open spec fn content_view(&self) -> Seq<char> {
        self.name@
    }

    open spec fn comment_view(&self) -> Seq<char> {
        channel_comment(self)
    }

    open spec fn accepts(&self, new: Seq<char>) -> bool {
        valid_channel_name(self.kind, new)
    }

    open spec fn rejects_with(&self, new: Seq<char>, e: Error) -> bool {
        name_rejection(new, e)
    }

    fn content(&self) -> (r: String) {
        self.name.clone()
    }

    fn comment(&self) -> (r: String) {
        let mut c = String::from_str(kind_symbol_text(self.kind));
        match &self.parent_name {
            Some(p) => {
                c.append(" in ");
                c.append(p.as_str());
            },
            None => {},
        }
        c.append(" (");
        let id = decimal_text(self.id);
        c.append(id.as_str());
        c.append(")");
        c
    }

    fn validate(&self, new: &str) -> (r: Result<(), Error>) {
        let len = new.unicode_len();
        if len < 2 || len > 100 {
            return Err(
                Error::InvalidChannelName {
                    name: String::from_str(new),
                    message: String::from_str("Channel name must be between 2 and 100 characters"),
                },
            );
        }
        let pattern = if self.kind == ChannelKind::Category {
            r"^[\-\w ]*$"
        } else {
            r"^[\-\w]*$"
        };
        if !pattern_matches(pattern, new) || contains_double_hyphen(new) {
            return Err(
                Error::InvalidChannelName {
                    name: String::from_str(new),
                    message: String::from_str("Contains characters or patterns that cannot be used"),
                },
            );
        }
        Ok(())
    }
}

/// A channel as the guild lists it.
#[derive(Debug)]
pub struct ChannelRecord {
    /// The channel's id.
    pub id: u64,
    /// The channel's name.
    pub name: String,
    /// The channel's kind.
    pub kind: ChannelKind,
    /// The category that holds the channel, if any.
    pub parent_id: Option<u64>,
    /// The channel's position among its siblings.
    pub position: u16,
}

/// The first record with the id `id`.
pub open spec fn find_record(channels: Seq<ChannelRecord>, id: u64) -> Option<ChannelRecord>
    decreases channels.len(),
{
    if channels.len() == 0 {
        None
    } else if channels[0].id == id {
        Some(channels[0])
    } else {
        find_record(channels.drop_first(), id)
    }
}

/// The parent of `c` among `channels`, where it is listed.
pub open spec fn parent_of(channels: Seq<ChannelRecord>, c: ChannelRecord) -> Option<ChannelRecord> {
    match c.parent_id {
        Some(p) => find_record(channels, p),
        None => None,
    }
}

/// The item for the record `c`: the parent's name and position are taken
/// from `channels` where the parent is listed there.
pub open spec fn item_for(channels: Seq<ChannelRecord>, c: ChannelRecord) -> ChannelItem {
    let parent = parent_of(channels, c);
    ChannelItem {
        id: c.id,
        name: c.name,
        kind: c.kind,
        parent_id: c.parent_id,
        position: c.position,
        parent_name: match parent {
            Some(p) => Some(p.name),
            None => None,
        },
        category_position: match parent {
            Some(p) => p.position,
            None => c.position,
        },
    }
}

/// The items for the records of `part` whose kind passes `filter`, in the
/// order of `part`; parents are looked up in `channels`.
pub open spec fn selected_items(
    channels: Seq<ChannelRecord>,
    part: Seq<ChannelRecord>,
    filter: ChannelFilterArgs,
) -> Seq<ChannelItem>
    decreases part.len(),
{
    if part.len() == 0 {
        Seq::empty()
    } else {
        let rest = selected_items(channels, part.drop_last(), filter);
        if filter.lets_through(part.last().kind) {
            rest.push(item_for(channels, part.last()))
        } else {
            rest
        }
    }
}

/// The first record with the id `id`.
fn find_channel(channels: &Vec<ChannelRecord>, id: u64) -> (r: Option<&ChannelRecord>)
    ensures
        match r {
            Some(c) => find_record(channels@, id) == Some(*c),
            None => find_record(channels@, id) is None,
        },
{
    let mut i: usize = 0;
    assert(channels@.skip(0) =~= channels@);
    while i < channels.len()
        invariant
            i <= channels.len(),
            find_record(channels@, id) == find_record(channels@.skip(i as int), id),
        decreases channels.len() - i,
    {
        assert(channels@.skip(i as int).drop_first() =~= channels@.skip(i + 1));
        if channels[i].id == id {
            return Some(&channels[i]);
        }
        i = i + 1;
    }
    assert(channels@.skip(i as int).len() == 0);
    None
}

/// The items for the channels whose kind passes `filter`, in the order given.
pub fn collect_items(channels: &Vec<ChannelRecord>, filter: &ChannelFilterArgs) -> (r: Vec<
    ChannelItem,
>)
    ensures
        r@ == selected_items(channels@, channels@, *filter),
{
    let mut items: Vec<ChannelItem> = Vec::new();
    let mut i: usize = 0;
    while i < channels.len()
        invariant
            i <= channels.len(),
            items@ == selected_items(channels@, channels@.take(i as int), *filter),
        decreases channels.len() - i,
    {
        let c = &channels[i];
        assert(channels@.take(i + 1).drop_last() =~= channels@.take(i as int));
        if filter.admits(c.kind) {
            let parent = match c.parent_id {
                Some(p) => find_channel(channels, p),
                None => None,
            };
            let parent_name = match parent {
                Some(p) => Some(p.name.clone()),
                None => None,
            };
            let category_position = match parent {
                Some(p) => p.position,
                None => c.position,
            };
            let item = ChannelItem {
                id: c.id,
                name: c.name.clone(),
                kind: c.kind,
                parent_id: c.parent_id,
                position: c.position,
                parent_name,
                category_position,
            };
            assert(item == item_for(channels@, channels@[i as int]));
            items.push(item);
        }
        i = i + 1;
    }
    assert(channels@.take(i as int) =~= channels@);
    items
}

/// The channels whose kind passes `filter`, in listing order.
pub fn prepare_items(channels: &Vec<ChannelRecord>, filter: &ChannelFilterArgs) -> (r: Vec<
    ChannelItem,
>)
    ensures
        listed_in_order(r@),
        r@.to_multiset() == selected_items(channels@, channels@, *filter).to_multiset(),
{
    sort_channels(collect_items(channels, filter))
}

/// Listing groups channels: a channel outside any category comes before a
/// category, the category before the channels it holds, and within the
/// category a text-like channel before a voice-like one.
pub proof fn lemma_listing_groups(
    channels: Seq<ChannelRecord>,
    a: ChannelRecord,
    b: ChannelRecord,
    c: ChannelRecord,
    d: ChannelRecord,
)
    requires
        a.parent_id is None,
        a.kind != ChannelKind::Category,
        b.kind == ChannelKind::Category,
        b.parent_id is None,
        find_record(channels, b.id) == Some(b),
        c.parent_id == Some(b.id),
        c.kind == ChannelKind::Text,
        d.parent_id == Some(b.id),
        d.kind == ChannelKind::Voice,
    ensures
        ({
            let (ia, ib, ic, id) = (
                item_for(channels, a),
                item_for(channels, b),
                item_for(channels, c),
                item_for(channels, d),
            );
            &&& ia.order(&ib) == Ordering::Less
            &&& ia.order(&ic) == Ordering::Less
            &&& ia.order(&id) == Ordering::Less
            &&& ib.order(&ic) == Ordering::Less
            &&& ib.order(&id) == Ordering::Less
            &&& ic.order(&id) == Ordering::Less
        }),
{
}

} // verus!
