//! The text of a map, in the form `{0: a, 1: b}`.

use crate::map::IdMap;
use crate::model::lists;
use vstd::prelude::*;
use vstd::string::StringExecFns;

verus! {

/// The digit for a number below ten.
pub open spec fn digit(d: nat) -> char {
    if d == 0 {
        '0'
    } else if d == 1 {
        '1'
    } else if d == 2 {
        '2'
    } else if d == 3 {
        '3'
    } else if d == 4 {
        '4'
    } else if d == 5 {
        '5'
    } else if d == 6 {
        '6'
    } else if d == 7 {
        '7'
    } else if d == 8 {
        '8'
    } else {
        '9'
    }
}

/// A number in decimal digits, without leading zeros.
pub open spec fn decimal(n: nat) -> Seq<char>
    decreases n,
{
    if n < 10 {
        seq![digit(n)]
    } else {
        decimal(n / 10).push(digit(n % 10))
    }
}

/// One entry: the identifier, a colon, a blank, and the text of the value.
pub open spec fn entry_text(entry: (usize, Seq<char>)) -> Seq<char> {
    decimal(entry.0 as nat) + seq![':', ' '] + entry.1
}

/// The entries one after the other, with a comma and a blank between two.
pub open spec fn joined(entries: Seq<(usize, Seq<char>)>) -> Seq<char>
    decreases entries.len(),
{
    if entries.len() == 0 {
        Seq::empty()
    } else if entries.len() == 1 {
        entry_text(entries[0])
    } else {
        joined(entries.drop_last()) + seq![',', ' '] + entry_text(entries.last())
    }
}

/// The entries in braces.
pub open spec fn rendered(entries: Seq<(usize, Seq<char>)>) -> Seq<char> {
    seq!['{'] + joined(entries) + seq!['}']
}

/// Each identifier with the characters of its text.
pub open spec fn texts(entries: Seq<(usize, String)>) -> Seq<(usize, Seq<char>)> {
    Seq::new(entries.len(), |i: int| (entries[i].0, entries[i].1@))
}

/// The identifiers of the entries, in their order.
pub open spec fn keys(entries: Seq<(usize, Seq<char>)>) -> Seq<usize> {
    Seq::new(entries.len(), |i: int| entries[i].0)
}

/// `format!("{:?}", ..)` on a `usize`: the standard library writes the
/// number in decimal digits. Nothing is proved here.
#[verifier::external_body]
fn id_text(id: usize) -> (s: String)
    ensures
        s@ == decimal(id as nat),
{
    format!("{:?}", id)
}

/// `format!("{:?}", ..)` on a value: its text in the debug format. What
/// the text is lies with the `Debug` impl of `T`, so nothing is said of it.
#[verifier::external_body]
fn debug_text<T: core::fmt::Debug>(val: &T) -> (s: String) {
    format!("{:?}", val)
}

/// Writes the entries in the form `{0: a, 1: b}`.
pub fn render(entries: &Vec<(usize, String)>) -> (s: String)
    ensures
        s@ == rendered(texts(entries@)),
{
    proof {
        reveal_strlit("{");
        reveal_strlit("}");
        reveal_strlit(": ");
        reveal_strlit(", ");
    }
    let ghost all = texts(entries@);
    let mut s = String::from_str("{");
    assert(s@ =~= seq!['{']);
    let mut i: usize = 0;
    while i < entries.len()
        invariant
            i <= entries@.len(),
            all == texts(entries@),
            s@ == seq!['{'] + joined(all.take(i as int)),
            "{"@ == seq!['{'],
            ": "@ == seq![':', ' '],
            ", "@ == seq![',', ' '],
        decreases entries@.len() - i,
    {
        if i > 0 {
            s.append(", ");
        }
        let id = id_text(entries[i].0);
        s.append(id.as_str());
        s.append(": ");
        s.append(entries[i].1.as_str());
        proof {
            let upto = all.take(i + 1);
            assert(upto.drop_last() =~= all.take(i as int));
            assert(upto.last() == all[i as int]);
            assert(all[i as int] == (entries@[i as int].0, entries@[i as int].1@));
            if i == 0 {
                assert(joined(all.take(0)) =~= Seq::<char>::empty());
                assert(s@ =~= seq!['{'] + joined(upto));
            } else {
                assert(s@ =~= seq!['{'] + joined(upto));
            }
        }
        i = i + 1;
    }
    s.append("}");
    proof {
        assert(all.take(i as int) =~= all);
        assert(s@ =~= rendered(all));
    }
    s
}

impl<T: core::fmt::Debug> IdMap<T> {
    /// The identifiers of the map, smallest first, each with the text of
    /// its value in the debug format.
    pub fn debug_entries(&self) -> (entries: Vec<(usize, String)>)
        requires
            self.wf(),
        ensures
            lists(keys(texts(entries@)), self@.dom()),
    {
        let mut entries: Vec<(usize, String)> = Vec::new();
        let mut it = self.iter();
        let ghost all = it.pending();
        loop
            invariant
                it.wf(),
                entries@.len() <= all.len(),
                it.pending() == all.skip(entries@.len() as int),
                forall|k: int| 0 <= k < entries@.len() ==> entries@[k].0 == all[k],
            ensures
                entries@.len() == all.len(),
                forall|k: int| 0 <= k < entries@.len() ==> entries@[k].0 == all[k],
            decreases all.len() - entries@.len(),
        {
            let ghost n = entries@.len() as int;
            match it.next() {
                Some((id, val)) => {
                    entries.push((id, debug_text(val)));
                    proof {
                        assert(all.skip(n)[0] == all[n]);
                        assert(all.skip(n).skip(1) =~= all.skip(n + 1));
                    }
                },
                None => {
                    break ;
                },
            }
        }
        proof {
            assert(keys(texts(entries@)) =~= all);
        }
        entries
    }

    /// The text of the map in the debug format: the entries by increasing
    /// identifier, in the form `{0: a, 1: b}`, where `a` and `b` are the
    /// texts of the values in the debug format.
    pub fn debug_string(&self) -> (s: String)
        requires
            self.wf(),
        ensures
            exists|entries: Seq<(usize, Seq<char>)>|
                lists(keys(entries), self@.dom()) && s@ == rendered(entries),
    {
        let entries = self.debug_entries();
        let s = render(&entries);
        assert(lists(keys(texts(entries@)), self@.dom()) && s@ == rendered(texts(entries@)));
        s
    }
}

} // verus!
