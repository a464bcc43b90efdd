//! Candidates and the outcome of matching one.

use crate::rank::rank_view;
use crate::text::{chars_of, lowercase_of, to_lowercase};
use vstd::prelude::*;
use vstd::slice::slice_to_vec;

verus! {

/// What a candidate is, as the matching engine sees it.
pub struct ItemView {
    /// The stable index of the candidate in its store.
    pub index: usize,
    /// The lower-cased characters of the candidate's text.
    pub chars: Seq<char>,
    /// The fields that are matched, each a range `(start, end)` of `chars`,
    /// `end` excluded.
    pub ranges: Seq<(usize, usize)>,
}

/// Whether two ranges share a position.
pub open spec fn overlap(a: (usize, usize), b: (usize, usize)) -> bool {
    a.0 < a.1 && b.0 < b.1 && a.0 < b.1 && b.0 < a.1
}

impl ItemView {
    /// There is at least one field, each field lies inside the text, no two
    /// fields share a position, and the index and every position of the text
    /// fit in a slot of a rank.
    pub open spec fn wf(self) -> bool {
        &&& self.index <= i64::MAX
        &&& self.chars.len() <= i64::MAX
        &&& self.ranges.len() >= 1
        &&& forall|i: int|
            0 <= i < self.ranges.len() ==> (#[trigger] self.ranges[i]).0 <= self.ranges[i].1
                <= self.chars.len()
        &&& forall|i: int, j: int|
            0 <= i < j < self.ranges.len() ==> !overlap(
                #[trigger] self.ranges[i],
                #[trigger] self.ranges[j],
            )
    }

    /// The characters of field `i`.
    pub open spec fn field(self, i: int) -> Seq<char> {
        self.chars.subrange(self.ranges[i].0 as int, self.ranges[i].1 as int)
    }

    /// The characters of the field that comes last.
    pub open spec fn last_field(self) -> Seq<char> {
        self.field(self.ranges.len() - 1)
    }
}

/// A candidate: one selectable entry, immutable once made.
#[derive(Debug)]
pub struct Item {
    index: usize,
    lower_chars: Vec<char>,
    matching_ranges: Vec<(usize, usize)>,
}

impl View for Item {
    type V = ItemView;

    closed spec fn view(&self) -> ItemView {
        ItemView {
            index: self.index,
            chars: self.lower_chars@,
            ranges: self.matching_ranges@,
        }
    }
}

impl Clone for Item {
    /// A copy of the candidate: the same index, text and fields.
    fn clone(&self) -> (r: Self)
        ensures
            r@ == self@,
    {
        proof {
            use_type_invariant(self);
        }
        Item {
            index: self.index,
            lower_chars: slice_to_vec(self.lower_chars.as_slice()),
            matching_ranges: slice_to_vec(self.matching_ranges.as_slice()),
        }
    }
}

impl Item {
    /// Every candidate is well formed.
    #[verifier::type_invariant]
    pub open spec fn inv(self) -> bool {
        self@.wf()
    }

    /// Makes a candidate from its index, its lower-cased text and its fields.
    /// Gives `None` exactly when the three do not form a candidate.
    pub fn new(index: usize, lower_chars: Vec<char>, matching_ranges: Vec<(usize, usize)>) -> (r:
        Option<Item>)
        ensures
            ({
                let v = ItemView { index, chars: lower_chars@, ranges: matching_ranges@ };
                match r {
                    Some(item) => v.wf() && item@ == v,
                    None => !v.wf(),
                }
            }),
    {
        if index as u64 > i64::MAX as u64 || lower_chars.len() as u64 > i64::MAX as u64
            || matching_ranges.len() == 0 {
            return None;
        }
        let n = matching_ranges.len();
        let len = lower_chars.len();
        let mut j: usize = 0;
        while j < n
            invariant
                n == matching_ranges@.len(),
                len == lower_chars@.len(),
                j <= n,
                forall|k: int|
                    0 <= k < j ==> (#[trigger] matching_ranges@[k]).0 <= matching_ranges@[k].1
                        <= len,
                forall|h: int, k: int|
                    0 <= h < k < j ==> !overlap(
                        #[trigger] matching_ranges@[h],
                        #[trigger] matching_ranges@[k],
                    ),
            decreases n - j,
        {
            let b = matching_ranges[j];
            if b.0 > b.1 || b.1 > len {
                return None;
            }
            let mut i: usize = 0;
            while i < j
                invariant
                    n == matching_ranges@.len(),
                    j < n,
                    i <= j,
                    b == matching_ranges@[j as int],
                    forall|h: int|
                        0 <= h < i ==> !overlap(#[trigger] matching_ranges@[h], b),
                decreases j - i,
            {
                let a = matching_ranges[i];
                if a.0 < a.1 && b.0 < b.1 && a.0 < b.1 && b.0 < a.1 {
                    return None;
                }
                i += 1;
            }
            j += 1;
        }
        Some(Item { index, lower_chars, matching_ranges })
    }

    /// Makes a candidate from a text that is matched as a whole: the text is
    /// put into lower case and is the one field. Gives `None` exactly when
    /// the index or the length of the text does not fit in a slot of a rank.
    pub fn from_text(index: usize, text: &str) -> (r: Option<Item>)
        ensures
            ({
                let chars = lowercase_of(text@);
                match r {
                    Some(item) => {
                        &&& index <= i64::MAX
                        &&& chars.len() <= i64::MAX
                        &&& item@ == (ItemView {
                            index,
                            chars,
                            ranges: seq![(0usize, chars.len() as usize)],
                        })
                    },
                    None => index > i64::MAX || chars.len() > i64::MAX,
                }
            }),
    {
        let lowered = to_lowercase(text);
        let lower_chars = chars_of(lowered.as_str());
        let mut matching_ranges: Vec<(usize, usize)> = Vec::new();
        matching_ranges.push((0, lower_chars.len()));
        assert(matching_ranges@ == seq![(0usize, lower_chars@.len() as usize)]);
        Item::new(index, lower_chars, matching_ranges)
    }

    /// The stable index of the candidate.
    pub fn get_index(&self) -> (r: usize)
        ensures
            r == self@.index,
    {
        self.index
    }

    /// The lower-cased characters of the candidate's text.
    pub fn get_lower_chars(&self) -> (r: &[char])
        ensures
            r@ == self@.chars,
    {
        self.lower_chars.as_slice()
    }

    /// The fields of the candidate that are matched.
    pub fn get_matching_ranges(&self) -> (r: &[(usize, usize)])
        ensures
            r@ == self@.ranges,
    {
        self.matching_ranges.as_slice()
    }
}

/// What the outcome of a match is.
pub struct MatchedItemView {
    /// The candidate that matched.
    pub item: ItemView,
    /// The rank of the match: four slots, compared slot by slot, smaller
    /// first.
    pub rank: Seq<int>,
    /// The positions of the matched characters within the field that
    /// matched.
    pub positions: Seq<usize>,
}

/// The outcome of matching one candidate against one query: the candidate,
/// its rank and the matched positions. It is handed to the consumer of the
/// results and not changed afterwards.
#[derive(Clone, Debug)]
pub struct MatchedItem {
    pub item: Item,
    pub rank: [i64; 4],
    pub matched_range: Vec<usize>,
}

impl View for MatchedItem {
    type V = MatchedItemView;

    open spec fn view(&self) -> MatchedItemView {
        MatchedItemView {
            item: self.item@,
            rank: rank_view(self.rank),
            positions: self.matched_range@,
        }
    }
}

} // verus!
