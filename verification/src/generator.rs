//! Candidate display names: an adjective word paired with a character word.
//!
//! The word lists themselves are supplied by the caller; the generator owns
//! two cursors over them, randomly seeded, and walks the product space,
//! skipping combinations whose joined length falls outside 8 to 18
//! characters.

use crate::name_rules::{is_name_char, name_char, valid_name_seq};
use vstd::prelude::*;
use vstd::seq_lib::group_to_multiset_ensures;
use vstd::string::{StrSliceExecFns, StringExecFns};

verus! {

/// A word usable in a generated name: nonempty, made of name characters,
/// and short enough that index arithmetic over the lists stays in bounds.
pub open spec fn good_word(w: Seq<char>) -> bool {
    &&& 1 <= w.len() <= 100
    &&& forall|i: int| 0 <= i < w.len() ==> is_name_char(#[trigger] w[i])
}

/// A usable word list: nonempty, not unreasonably long, every word good.
pub open spec fn good_word_list(ws: Seq<String>) -> bool {
    &&& 1 <= ws.len() <= 0x10000
    &&& forall|i: int| 0 <= i < ws.len() ==> good_word(#[trigger] ws[i]@)
}

/// Two words join to a display-friendly length.
pub open spec fn fits(a: Seq<char>, c: Seq<char>) -> bool {
    8 <= a.len() + c.len() <= 18
}

/// At least one pair of words across the two lists fits.
pub open spec fn lists_fit(adjs: Seq<String>, chars: Seq<String>) -> bool {
    exists|i: int, j: int|
        0 <= i < adjs.len() && 0 <= j < chars.len() && fits(adjs[i]@, chars[j]@)
}

/// Runtime check that `ws` is a usable word list.
pub fn usable_word_list(ws: &Vec<String>) -> (r: bool)
    ensures
        r == good_word_list(ws@),
{
    if ws.len() < 1 || ws.len() > 0x10000 {
        return false;
    }
    let mut i: usize = 0;
    while i < ws.len()
        invariant
            0 <= i <= ws@.len(),
            1 <= ws@.len() <= 0x10000,
            forall|j: int| 0 <= j < i ==> good_word(#[trigger] ws@[j]@),
        decreases ws@.len() - i,
    {
        if !good_word_exec(&ws[i]) {
            return false;
        }
        i = i + 1;
    }
    true
}

/// Runtime check that some pair across the two lists fits.
pub fn lists_have_fit(adjs: &Vec<String>, chars: &Vec<String>) -> (r: bool)
    ensures
        r == lists_fit(adjs@, chars@),
{
    let mut i: usize = 0;
    while i < adjs.len()
        invariant
            0 <= i <= adjs@.len(),
            forall|x: int, y: int|
                0 <= x < i && 0 <= y < chars@.len() ==> !fits(
                    #[trigger] adjs@[x]@,
                    #[trigger] chars@[y]@,
                ),
        decreases adjs@.len() - i,
    {
        let al = adjs[i].as_str().unicode_len();
        let mut j: usize = 0;
        while j < chars.len()
            invariant
                0 <= i < adjs@.len(),
                0 <= j <= chars@.len(),
                al == adjs@[i as int]@.len(),
                forall|y: int| 0 <= y < j ==> !fits(adjs@[i as int]@, #[trigger] chars@[y]@),
            decreases chars@.len() - j,
        {
            let cl = chars[j].as_str().unicode_len();
            if al <= 18 && cl <= 18 && 8 <= al + cl && al + cl <= 18 {
                proof {
                    assert(fits(adjs@[i as int]@, chars@[j as int]@));
                }
                return true;
            }
            j = j + 1;
        }
        i = i + 1;
    }
    false
}

fn good_word_exec(w: &String) -> (r: bool)
    ensures
        r == good_word(w@),
{
    let s = w.as_str();
    let n = s.unicode_len();
    if n < 1 || n > 100 {
        return false;
    }
    let mut i: usize = 0;
    while i < n
        invariant
            0 <= i <= n,
            n == s@.len(),
            s@ == w@,
            1 <= n <= 100,
            forall|j: int| 0 <= j < i ==> is_name_char(#[trigger] s@[j]),
        decreases n - i,
    {
        if !name_char(s.get_char(i)) {
            return false;
        }
        i = i + 1;
    }
    true
}

/// Joins two good words whose lengths fit; the result obeys the name rule.
fn join_words(a: &String, c: &String) -> (r: String)
    requires
        good_word(a@),
        good_word(c@),
        fits(a@, c@),
    ensures
        r@ == a@ + c@,
        valid_name_seq(r@),
        8 <= r@.len() <= 18,
{
    let mut r = a.clone();
    r.append(c.as_str());
    proof {
        assert forall|i: int| 0 <= i < r@.len() implies is_name_char(#[trigger] r@[i]) by {
            if i < a@.len() {
                assert(r@[i] == a@[i]);
            } else {
                assert(r@[i] == c@[i - a@.len()]);
            }
        }
    }
    r
}

/// Relies on fastrand::usize: a uniformly drawn index below `n`.
/// The call panics only when the range is empty, which `n > 0` rules out.
#[verifier::external_body]
fn random_index(n: usize) -> (r: usize)
    requires
        n > 0,
    ensures
        r < n,
{
    fastrand::usize(..n)
}

/// Relies on fastrand::shuffle: the slice is permuted in place, so it holds
/// the same elements with the same multiplicities afterwards.
#[verifier::external_body]
fn shuffle_indices(v: &mut Vec<usize>)
    ensures
        final(v)@.to_multiset() == old(v)@.to_multiset(),
{
    fastrand::shuffle(v.as_mut_slice());
}

/// Picks a uniformly random element of a nonempty slice.
pub fn pick<T: Copy>(arrays: &[T]) -> (r: T)
    requires
        arrays@.len() > 0,
    ensures
        exists|i: int| 0 <= i < arrays@.len() && r == arrays@[i],
{
    let i = random_index(arrays.len());
    *vstd::slice::slice_index_get(arrays, i)
}

/// Joins a random adjective and a random character word with a space.
pub fn random_name(adjectives: &Vec<String>, characters: &Vec<String>) -> (r: String)
    requires
        adjectives@.len() > 0,
        characters@.len() > 0,
    ensures
        exists|i: int, j: int|
            0 <= i < adjectives@.len() && 0 <= j < characters@.len() && r@ == adjectives@[i]@ + seq![
                ' ',
            ] + characters@[j]@,
{
    let i = random_index(adjectives.len());
    let j = random_index(characters.len());
    let mut r = adjectives[i].clone();
    r.append(" ");
    r.append(characters[j].as_str());
    proof {
        reveal_strlit(" ");
        assert(r@ =~= adjectives@[i as int]@ + seq![' '] + characters@[j as int]@);
    }
    r
}

/// Cursor state for the non-repeating tour of the adjective-word product
/// space.
pub struct NameGenerator {
    adjectives: Vec<String>,
    characters: Vec<String>,
    adj_idx: usize,
    adj_offset: usize,
    char_idx: usize,
    char_offset_idx: usize,
    char_offsets: Vec<usize>,
}

impl NameGenerator {
    /// Internal consistency: usable word lists holding at least one fitting
    /// pair, every cursor inside its list, and the offset table a
    /// rearrangement of the character indices.
    pub closed spec fn wf(self) -> bool {
        &&& good_word_list(self.adjectives@)
        &&& good_word_list(self.characters@)
        &&& lists_fit(self.adjectives@, self.characters@)
        &&& self.adj_idx < self.adjectives@.len()
        &&& self.adj_offset < self.adjectives@.len()
        &&& self.char_idx < self.characters@.len()
        &&& self.char_offsets@.len() == self.characters@.len()
        &&& self.char_offset_idx < self.char_offsets@.len()
        &&& forall|i: int|
            0 <= i < self.char_offsets@.len() ==> #[trigger] self.char_offsets@[i]
                < self.characters@.len()
    }

    /// The adjective list the generator draws from.
    pub closed spec fn adj_words(self) -> Seq<String> {
        self.adjectives@
    }

    /// The character-word list the generator draws from.
    pub closed spec fn char_words(self) -> Seq<String> {
        self.characters@
    }

    /// Seeds the cursors: a random adjective offset, and a shuffled table of
    /// character-list offsets, one of which is consumed per adjective cycle.
    pub fn new(adjectives: Vec<String>, characters: Vec<String>) -> (g: NameGenerator)
        requires
            good_word_list(adjectives@),
            good_word_list(characters@),
            lists_fit(adjectives@, characters@),
        ensures
            g.wf(),
            g.adj_words() == adjectives@,
            g.char_words() == characters@,
    {
        let cn = characters.len();
        let mut char_offsets: Vec<usize> = Vec::new();
        let mut i: usize = 0;
        while i < cn
            invariant
                0 <= i <= cn,
                char_offsets@.len() == i,
                forall|j: int| 0 <= j < i ==> #[trigger] char_offsets@[j] == j,
            decreases cn - i,
        {
            char_offsets.push(i);
            i = i + 1;
        }
        let ghost before = char_offsets@;
        shuffle_indices(&mut char_offsets);
        proof {
            broadcast use group_to_multiset_ensures;

            assert(char_offsets@.len() == char_offsets@.to_multiset().len());
            assert(before.len() == before.to_multiset().len());
            assert forall|j: int| 0 <= j < char_offsets@.len() implies #[trigger] char_offsets@[j]
                < cn by {
                assert(char_offsets@.contains(char_offsets@[j]));
                assert(char_offsets@.to_multiset().count(char_offsets@[j]) > 0);
                assert(before.contains(char_offsets@[j]));
            }
        }
        let adj_offset = random_index(adjectives.len());
        NameGenerator {
            adjectives,
            characters,
            adj_idx: 0,
            adj_offset,
            char_idx: 0,
            char_offset_idx: 0,
            char_offsets,
        }
    }

    /// Advances the cursors until they land on a pair whose joined length
    /// lies in 8 to 18, and returns that pair joined: an adjective from the
    /// stored adjective list followed by a word from the stored character
    /// list, the lists themselves untouched.  Every result obeys the
    /// display-name rule.  The cursor walk carries a step budget far above
    /// the size of the product space; if it were ever spent, a direct scan
    /// of the lists supplies a fitting pair, so the call always returns.
    pub fn next(&mut self) -> (r: String)
        requires
            old(self).wf(),
        ensures
            final(self).wf(),
            final(self).adj_words() == old(self).adj_words(),
            final(self).char_words() == old(self).char_words(),
            valid_name_seq(r@),
            8 <= r@.len() <= 18,
            exists|i: int, j: int|
                0 <= i < old(self).adj_words().len() && 0 <= j < old(self).char_words().len()
                    && r@ == old(self).adj_words()[i]@ + old(self).char_words()[j]@,
    {
        let mut fuel: u64 = 0x200000000;
        while fuel > 0
            invariant
                self.wf(),
                self.adj_words() == old(self).adj_words(),
                self.char_words() == old(self).char_words(),
            decreases fuel,
        {
            let an = self.adjectives.len();
            let cn = self.characters.len();
            let ai = (self.adj_idx + self.adj_offset) % an;
            let ci = (self.char_idx + self.char_offsets[self.char_offset_idx]) % cn;
            let adj = self.adjectives[ai].clone();
            let character = self.characters[ci].clone();

            self.adj_idx = (self.adj_idx + 1) % an;
            self.char_idx = (self.char_idx + 1) % cn;
            if self.adj_idx == 0 {
                self.char_idx = 0;
                self.char_offset_idx = (self.char_offset_idx + 1) % self.char_offsets.len();
            }
            let al = adj.as_str().unicode_len();
            let cl = character.as_str().unicode_len();
            if al <= 18 && cl <= 18 && 8 <= al + cl && al + cl <= 18 {
                let r = join_words(&adj, &character);
                proof {
                    let ghost cw = old(self).char_words()[ci as int];
                    assert(r@ == old(self).adj_words()[ai as int]@ + cw@);
                }
                return r;
            }
            fuel = fuel - 1;
        }
        let an = self.adjectives.len();
        let cn = self.characters.len();
        let mut i: usize = 0;
        while i < an
            invariant
                self.wf(),
                self.adj_words() == old(self).adj_words(),
                self.char_words() == old(self).char_words(),
                an == self.adjectives@.len(),
                cn == self.characters@.len(),
                0 <= i <= an,
                forall|x: int, y: int|
                    0 <= x < i && 0 <= y < cn ==> !fits(
                        #[trigger] self.adjectives@[x]@,
                        #[trigger] self.characters@[y]@,
                    ),
            decreases an - i,
        {
            let al = self.adjectives[i].as_str().unicode_len();
            let mut j: usize = 0;
            while j < cn
                invariant
                    self.wf(),
                    self.adj_words() == old(self).adj_words(),
                    self.char_words() == old(self).char_words(),
                    an == self.adjectives@.len(),
                    cn == self.characters@.len(),
                    0 <= i < an,
                    0 <= j <= cn,
                    al == self.adjectives@[i as int]@.len(),
                    forall|y: int|
                        0 <= y < j ==> !fits(
                            self.adjectives@[i as int]@,
                            #[trigger] self.characters@[y]@,
                        ),
                decreases cn - j,
            {
                let cl = self.characters[j].as_str().unicode_len();
                if al <= 18 && cl <= 18 && 8 <= al + cl && al + cl <= 18 {
                    let adj = self.adjectives[i].clone();
                    let character = self.characters[j].clone();
                    let r = join_words(&adj, &character);
                    proof {
                        let ghost cw = old(self).char_words()[j as int];
                        assert(r@ == old(self).adj_words()[i as int]@ + cw@);
                    }
                    return r;
                }
                j = j + 1;
            }
            i = i + 1;
        }
        proof {
            assert(false);
        }
        String::new()
    }
}

} // verus!
