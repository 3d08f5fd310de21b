//! Event directories beneath a base directory.

use vstd::prelude::*;
use crate::text::is_digit_char;
use crate::text::views_of;

verus! {

/// One immediate entry of the base directory, as its lister reports it: the
/// entry's file name and whether the entry is itself a directory.
pub struct DirEntry {
    pub name: String,
    pub is_directory: bool,
}

/// An event directory's name: one or more characters, all decimal digits.
pub open spec fn is_event_dir_name(s: Seq<char>) -> bool {
    s.len() > 0 && forall|i: int| 0 <= i < s.len() ==> is_digit_char(#[trigger] s[i])
}

/// Whether a base-directory entry is an event directory.
pub open spec fn is_event_entry(e: DirEntry) -> bool {
    e.is_directory && is_event_dir_name(e.name@)
}

/// Checks a name against the event-directory form: decimal digits only, at
/// least one.
pub fn check_event_dir_name(name: &str) -> (r: bool)
    ensures
        r == is_event_dir_name(name@),
{
    let len: usize = name.unicode_len();
    if len == 0 {
        return false;
    }
    let mut i: usize = 0;
    while i < len
        invariant
            i <= len,
            len == name@.len(),
            forall|k: int| 0 <= k < i ==> is_digit_char(#[trigger] name@[k]),
        decreases len - i,
    {
        let c = name.get_char(i);
        if c < '0' || c > '9' {
            return false;
        }
        i = i + 1;
    }
    true
}

/// The names of the event directories among a base directory's entries, in
/// the order given.
pub open spec fn event_names_of(entries: Seq<DirEntry>) -> Seq<Seq<char>>
    decreases entries.len(),
{
    if entries.len() == 0 {
        Seq::empty()
    } else {
        let rest = event_names_of(entries.drop_last());
        if is_event_entry(entries.last()) {
            rest.push(entries.last().name@)
        } else {
            rest
        }
    }
}

/// Some entry is a directory whose all-digit name is `n`.
pub open spec fn has_event_entry_named(entries: Seq<DirEntry>, n: Seq<char>) -> bool {
    exists|i: int|
        0 <= i < entries.len() && is_event_entry(#[trigger] entries[i]) && entries[i].name@ == n
}

/// The selection is exact: every selected name belongs to an entry that is a
/// directory with an all-digit name, and every such entry's name is
/// selected; files and otherwise-named directories are passed over.
pub proof fn lemma_event_selection_exact(entries: Seq<DirEntry>)
    ensures
        forall|k: int|
            0 <= k < event_names_of(entries).len() ==> has_event_entry_named(
                entries,
                #[trigger] event_names_of(entries)[k],
            ),
        forall|i: int|
            0 <= i < entries.len() && is_event_entry(#[trigger] entries[i])
                ==> event_names_of(entries).contains(entries[i].name@),
    decreases entries.len(),
{
    let sel = event_names_of(entries);
    if entries.len() > 0 {
        let dl = entries.drop_last();
        let rest = event_names_of(dl);
        let last = entries.last();
        lemma_event_selection_exact(dl);
        assert forall|k: int| 0 <= k < sel.len() implies has_event_entry_named(
            entries,
            #[trigger] sel[k],
        ) by {
            if k < rest.len() {
                assert(sel[k] == rest[k]);
                assert(has_event_entry_named(dl, rest[k]));
                let i = choose|i: int|
                    0 <= i < dl.len() && is_event_entry(#[trigger] dl[i]) && dl[i].name@ == rest[k];
                assert(entries[i] == dl[i]);
                assert(is_event_entry(entries[i]) && entries[i].name@ == sel[k]);
            } else {
                assert(is_event_entry(last) && sel[k] == last.name@);
                assert(entries[entries.len() - 1] == last);
                assert(is_event_entry(entries[entries.len() - 1]) && entries[entries.len()
                    - 1].name@ == sel[k]);
            }
        }
        assert forall|i: int|
            0 <= i < entries.len() && is_event_entry(#[trigger] entries[i]) implies sel.contains(
            entries[i].name@,
        ) by {
            if i < entries.len() - 1 {
                assert(dl[i] == entries[i]);
                assert(rest.contains(entries[i].name@));
                let k = choose|k: int| 0 <= k < rest.len() && rest[k] == entries[i].name@;
                assert(sel[k] == entries[i].name@);
            } else {
                assert(entries[i] == last);
                assert(sel.last() == last.name@);
            }
        }
    }
}

/// Selects the event directories among a base directory's entries: exactly
/// the entries that are directories with all-digit names, in the order
/// given.
pub fn select_event_dirs(entries: &Vec<DirEntry>) -> (out: Vec<String>)
    ensures
        views_of(out@) == event_names_of(entries@),
{
    let mut out: Vec<String> = Vec::new();
    let mut i: usize = 0;
    proof {
        assert(entries@.take(0) =~= Seq::<DirEntry>::empty());
        assert(views_of(out@) =~= Seq::<Seq<char>>::empty());
    }
    while i < entries.len()
        invariant
            i <= entries@.len(),
            views_of(out@) == event_names_of(entries@.take(i as int)),
        decreases entries@.len() - i,
    {
        let ghost prev_out = out@;
        let keep = entries[i].is_directory && check_event_dir_name(entries[i].name.as_str());
        if keep {
            out.push(entries[i].name.clone());
        }
        proof {
            assert(entries@.take(i + 1).drop_last() =~= entries@.take(i as int));
            assert(entries@.take(i + 1).last() == entries@[i as int]);
            assert(keep == is_event_entry(entries@[i as int]));
            if keep {
                assert(views_of(out@) =~= views_of(prev_out).push(entries@[i as int].name@));
            }
        }
        i = i + 1;
    }
    proof {
        assert(entries@.take(entries@.len() as int) =~= entries@);
    }
    out
}

} // verus!
