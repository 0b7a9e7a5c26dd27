//! View selectors and the filter that projects the catalog onto a view.

use vstd::prelude::*;
use crate::catalog::ProgramEntry;
use crate::text::{contains_text, has_infix, same_text};

verus! {

/// Which programs the list shows.
#[derive(Clone, Debug)]
pub enum ViewSelector {
    /// The whole catalog.
    All,
    /// The programs classified under one category, matched exactly and with
    /// case; records without a category are classified under "Other".
    Category(String),
    /// Privacy and security related programs, by a heuristic on names and
    /// categories.
    Stealth,
}

/// The heuristic of the stealth view: the category mentions security or
/// privacy, or the name mentions a VPN, Tor or privacy.
pub open spec fn is_stealth(e: ProgramEntry) -> bool {
    has_infix(e.category_of(), "Security"@) || has_infix(e.category_of(), "Privacy"@)
        || has_infix(e.name@, "VPN"@) || has_infix(e.name@, "Tor"@) || has_infix(
        e.name@,
        "Privacy"@,
    )
}

/// Whether a record passes the stealth heuristic.
pub fn stealth_candidate(e: &ProgramEntry) -> (r: bool)
    ensures
        r == is_stealth(*e),
{
    let cat = e.category_name();
    contains_text(cat, "Security") || contains_text(cat, "Privacy") || contains_text(
        e.name.as_str(),
        "VPN",
    ) || contains_text(e.name.as_str(), "Tor") || contains_text(e.name.as_str(), "Privacy")
}

impl ViewSelector {
    /// Whether the view holds the record.
    pub open spec fn shows(self, e: ProgramEntry) -> bool {
        match self {
            ViewSelector::All => true,
            ViewSelector::Category(k) => e.category_of() == k@,
            ViewSelector::Stealth => is_stealth(e),
        }
    }

    /// Whether the view holds the record.
    pub fn admits(&self, e: &ProgramEntry) -> (r: bool)
        ensures
            r == self.shows(*e),
    {
        match self {
            ViewSelector::All => true,
            ViewSelector::Category(k) => same_text(e.category_name(), k.as_str()),
            ViewSelector::Stealth => stealth_candidate(e),
        }
    }
}

/// Positions, in catalog order, of the records among the first `n` that the
/// view holds.
pub open spec fn shown_prefix(sel: ViewSelector, c: Seq<ProgramEntry>, n: int) -> Seq<usize>
    decreases n,
{
    if n <= 0 {
        Seq::empty()
    } else if sel.shows(c[n - 1]) {
        shown_prefix(sel, c, n - 1).push((n - 1) as usize)
    } else {
        shown_prefix(sel, c, n - 1)
    }
}

/// Positions, in catalog order, of the records that the view holds.
pub open spec fn shown(sel: ViewSelector, c: Seq<ProgramEntry>) -> Seq<usize> {
    shown_prefix(sel, c, c.len() as int)
}

/// The positions in the catalog of the records the view holds, in catalog
/// order. Nothing matching gives an empty result.
pub fn filter_programs(selector: &ViewSelector, catalog: &Vec<ProgramEntry>) -> (r: Vec<usize>)
    ensures
        r@ == shown(*selector, catalog@),
{
    let mut r: Vec<usize> = Vec::new();
    let mut i: usize = 0;
    while i < catalog.len()
        invariant
            i <= catalog@.len(),
            r@ == shown_prefix(*selector, catalog@, i as int),
        decreases catalog@.len() - i,
    {
        if selector.admits(&catalog[i]) {
            r.push(i);
        }
        i = i + 1;
    }
    r
}

/// What the positions that a view selects satisfy: each is in range and
/// held by the view, they increase, and no held record is left out.
pub proof fn lemma_shown_prefix(sel: ViewSelector, c: Seq<ProgramEntry>, n: int)
    requires
        0 <= n <= c.len(),
        c.len() <= usize::MAX,
    ensures
        forall|j: int|
            0 <= j < shown_prefix(sel, c, n).len() ==> {
                let p = #[trigger] shown_prefix(sel, c, n)[j];
                p < n && sel.shows(c[p as int])
            },
        forall|j: int, t: int|
            0 <= j < t < shown_prefix(sel, c, n).len() ==> #[trigger] shown_prefix(sel, c, n)[j]
                < #[trigger] shown_prefix(sel, c, n)[t],
        forall|p: int|
            0 <= p < n && sel.shows(#[trigger] c[p]) ==> shown_prefix(sel, c, n).contains(
                p as usize,
            ),
    decreases n,
{
    if n > 0 {
        lemma_shown_prefix(sel, c, n - 1);
        let prev = shown_prefix(sel, c, n - 1);
        if sel.shows(c[n - 1]) {
            let cur = shown_prefix(sel, c, n);
            assert(cur == prev.push((n - 1) as usize));
            assert forall|j: int| 0 <= j < prev.len() implies cur[j] == prev[j] by {}
            assert(cur[prev.len() as int] == (n - 1) as usize);
            assert forall|p: int| 0 <= p < n && sel.shows(#[trigger] c[p]) implies shown_prefix(
                sel,
                c,
                n,
            ).contains(p as usize) by {
                if p < n - 1 {
                    let j = choose|j: int| 0 <= j < prev.len() && prev[j] == p as usize;
                    assert(shown_prefix(sel, c, n)[j] == p as usize);
                } else {
                    assert(shown_prefix(sel, c, n)[prev.len() as int] == p as usize);
                }
            }
        }
    }
}

/// The whole-catalog view lists every record, in catalog order.
pub proof fn lemma_all_shows_everything(c: Seq<ProgramEntry>)
    ensures
        shown(ViewSelector::All, c) == Seq::new(c.len(), |i: int| i as usize),
{
    lemma_all_prefix(c, c.len() as int);
}

proof fn lemma_all_prefix(c: Seq<ProgramEntry>, n: int)
    requires
        0 <= n <= c.len(),
    ensures
        shown_prefix(ViewSelector::All, c, n) == Seq::new(n as nat, |i: int| i as usize),
    decreases n,
{
    if n > 0 {
        lemma_all_prefix(c, n - 1);
        assert(shown_prefix(ViewSelector::All, c, n) =~= Seq::new(n as nat, |i: int| i as usize));
    } else {
        assert(shown_prefix(ViewSelector::All, c, n) =~= Seq::new(n as nat, |i: int| i as usize));
    }
}


proof fn lemma_absent_first_char(hay: Seq<char>, needle: Seq<char>)
    requires
        needle.len() > 0,
        forall|i: int| 0 <= i < hay.len() ==> hay[i] != needle[0],
    ensures
        !has_infix(hay, needle),
{
    if has_infix(hay, needle) {
        let i = choose|i: int|
            0 <= i && i + needle.len() <= hay.len() && #[trigger] hay.subrange(i, i + needle.len())
                == needle;
        assert(hay.subrange(i, i + needle.len())[0] == hay[i]);
    }
}

/// The stealth view holds every record classified under "Privacy &
/// Security", and leaves out a record named "FastBrowser" under "Browsers".
pub proof fn lemma_stealth_examples(e: ProgramEntry, f: ProgramEntry)
    requires
        e.category_of() == "Privacy & Security"@,
        f.category_of() == "Browsers"@,
        f.name@ == "FastBrowser"@,
    ensures
        ViewSelector::Stealth.shows(e),
        !ViewSelector::Stealth.shows(f),
{
    reveal_strlit("Privacy & Security");
    reveal_strlit("Security");
    reveal_strlit("Browsers");
    reveal_strlit("FastBrowser");
    reveal_strlit("Privacy");
    reveal_strlit("VPN");
    reveal_strlit("Tor");
    let c = e.category_of();
    assert(c.subrange(10int, 10int + "Security"@.len()) =~= "Security"@);
    assert(has_infix(c, "Security"@));
    lemma_absent_first_char(f.category_of(), "Security"@);
    lemma_absent_first_char(f.category_of(), "Privacy"@);
    lemma_absent_first_char(f.name@, "VPN"@);
    lemma_absent_first_char(f.name@, "Tor"@);
    lemma_absent_first_char(f.name@, "Privacy"@);
}

} // verus!
