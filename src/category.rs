//! The category index: one group per category present in the catalog,
//! curated categories first in their fixed order, the rest sorted by name.

use vstd::prelude::*;
use crate::catalog::{category_icon_of, category_icon, ProgramEntry};
use crate::filter::{filter_programs, lemma_shown_prefix, shown, shown_prefix, ViewSelector};
use crate::text::{decimal, decimal_of, lemma_lt_asymmetric, lemma_lt_irreflexive, lemma_lt_total, lemma_lt_transitive, same_text, seq_lt, text_less};

verus! {

/// How many categories the curated order lists.
pub const PRIORITY_LEN: usize = 18;

/// The curated category order.
pub open spec fn priority_order() -> Seq<Seq<char>> {
    seq![
        "Browsers"@,
        "Development IDEs"@,
        "Development Tools"@,
        "Communication"@,
        "Media"@,
        "Productivity"@,
        "Security"@,
        "Privacy & Security"@,
        "System Tools"@,
        "System Utilities"@,
        "Utilities"@,
        "Network"@,
        "Gaming"@,
        "Graphics"@,
        "Cloud Storage"@,
        "Runtime"@,
        "Remote Access"@,
        "Virtualization"@,
    ]
}

/// The category at position `i` of the curated order.
pub fn priority_category(i: usize) -> (r: &'static str)
    requires
        i < PRIORITY_LEN,
    ensures
        r@ == priority_order()[i as int],
{
    if i == 0 {
        "Browsers"
    } else if i == 1 {
        "Development IDEs"
    } else if i == 2 {
        "Development Tools"
    } else if i == 3 {
        "Communication"
    } else if i == 4 {
        "Media"
    } else if i == 5 {
        "Productivity"
    } else if i == 6 {
        "Security"
    } else if i == 7 {
        "Privacy & Security"
    } else if i == 8 {
        "System Tools"
    } else if i == 9 {
        "System Utilities"
    } else if i == 10 {
        "Utilities"
    } else if i == 11 {
        "Network"
    } else if i == 12 {
        "Gaming"
    } else if i == 13 {
        "Graphics"
    } else if i == 14 {
        "Cloud Storage"
    } else if i == 15 {
        "Runtime"
    } else if i == 16 {
        "Remote Access"
    } else {
        "Virtualization"
    }
}

/// Whether the curated order lists the category.
pub open spec fn is_priority(k: Seq<char>) -> bool {
    priority_order().contains(k)
}

/// Whether the curated order lists the category.
pub fn is_priority_category(k: &str) -> (r: bool)
    ensures
        r == is_priority(k@),
{
    let mut i: usize = 0;
    while i < PRIORITY_LEN
        invariant
            i <= PRIORITY_LEN,
            priority_order().len() == PRIORITY_LEN,
            forall|t: int| 0 <= t < i ==> priority_order()[t] != k@,
        decreases PRIORITY_LEN - i,
    {
        if same_text(priority_category(i), k) {
            return true;
        }
        i = i + 1;
    }
    false
}


/// Some record of the catalog is classified under `k`.
pub open spec fn present_in(c: Seq<ProgramEntry>, k: Seq<char>) -> bool {
    exists|j: int| 0 <= j < c.len() && (#[trigger] c[j]).category_of() == k
}

/// Whether some record of the catalog is classified under `k`.
pub fn has_category(catalog: &Vec<ProgramEntry>, k: &str) -> (r: bool)
    ensures
        r == present_in(catalog@, k@),
{
    let mut j: usize = 0;
    while j < catalog.len()
        invariant
            j <= catalog@.len(),
            forall|t: int| 0 <= t < j ==> (#[trigger] catalog@[t]).category_of() != k@,
        decreases catalog@.len() - j,
    {
        if same_text(catalog[j].category_name(), k) {
            return true;
        }
        j = j + 1;
    }
    false
}

/// Positions in the curated order, below `n`, of the categories present in
/// the catalog, increasing.
pub open spec fn present_positions(c: Seq<ProgramEntry>, n: int) -> Seq<int>
    decreases n,
{
    if n <= 0 {
        Seq::empty()
    } else if present_in(c, priority_order()[n - 1]) {
        present_positions(c, n - 1).push(n - 1)
    } else {
        present_positions(c, n - 1)
    }
}

/// Positions in the curated order of the categories present in the catalog.
pub open spec fn curated_positions(c: Seq<ProgramEntry>) -> Seq<int> {
    present_positions(c, PRIORITY_LEN as int)
}

/// One category of the index: its name, its icon and the positions of its
/// records in catalog order.
#[derive(Clone, Debug)]
pub struct CategoryGroup {
    pub name: String,
    pub icon: String,
    pub members: Vec<usize>,
}

impl CategoryGroup {
    /// The group holds exactly the records of its category, in catalog
    /// order, and the icon of its name.
    pub open spec fn is_group_of(self, c: Seq<ProgramEntry>) -> bool {
        &&& self.members@ == shown(ViewSelector::Category(self.name), c)
        &&& self.icon@ == category_icon_of(self.name@)
    }

    /// How many records the group holds.
    pub fn count(&self) -> (r: usize)
        ensures
            r == self.members@.len(),
    {
        self.members.len()
    }
}

/// The group of category `name`.
pub fn make_group(name: &str, catalog: &Vec<ProgramEntry>) -> (r: CategoryGroup)
    ensures
        r.name@ == name@,
        r.is_group_of(catalog@),
{
    let own = name.to_owned();
    let members = filter_programs(&ViewSelector::Category(own.clone()), catalog);
    CategoryGroup { name: own, icon: category_icon(name).to_owned(), members }
}

/// The names are in strictly increasing order.
pub open spec fn strictly_sorted(s: Seq<String>) -> bool {
    forall|i: int, j: int| 0 <= i < j < s.len() ==> seq_lt(#[trigger] s[i]@, #[trigger] s[j]@)
}

/// `r` is the category index of catalog `c`: a group for each category
/// present, those of the curated order first and in that order, then the
/// others sorted by name; each group holds exactly its records.
pub open spec fn is_category_index(c: Seq<ProgramEntry>, r: Seq<CategoryGroup>) -> bool {
    let pos = curated_positions(c);
    let m = pos.len();
    &&& m <= r.len()
    &&& forall|i: int| 0 <= i < m ==> (#[trigger] r[i]).name@ == priority_order()[pos[i]]
    &&& forall|i: int|
        m <= i < r.len() ==> !is_priority((#[trigger] r[i]).name@) && present_in(c, r[i].name@)
    &&& forall|i: int, j: int|
        m <= i < j < r.len() ==> seq_lt((#[trigger] r[i]).name@, (#[trigger] r[j]).name@)
    &&& forall|k: Seq<char>|
        present_in(c, k) && !is_priority(k) ==> exists|i: int|
            m <= i < r.len() && (#[trigger] r[i]).name@ == k
    &&& forall|i: int| 0 <= i < r.len() ==> (#[trigger] r[i]).is_group_of(c)
}

/// The categories outside the curated order, sorted by name, each once.
fn sorted_other_categories(catalog: &Vec<ProgramEntry>) -> (r: Vec<String>)
    ensures
        strictly_sorted(r@),
        forall|i: int|
            0 <= i < r@.len() ==> !is_priority((#[trigger] r@[i])@) && present_in(catalog@, r@[i]@),
        forall|k: Seq<char>|
            present_in(catalog@, k) && !is_priority(k) ==> exists|i: int|
                0 <= i < r@.len() && (#[trigger] r@[i])@ == k,
{
    let mut r: Vec<String> = Vec::new();
    let mut j: usize = 0;
    while j < catalog.len()
        invariant
            j <= catalog@.len(),
            strictly_sorted(r@),
            forall|i: int|
                0 <= i < r@.len() ==> !is_priority((#[trigger] r@[i])@) && present_in(
                    catalog@,
                    r@[i]@,
                ),
            forall|t: int|
                0 <= t < j && !is_priority((#[trigger] catalog@[t]).category_of()) ==> exists|
                    i: int,
                | 0 <= i < r@.len() && (#[trigger] r@[i])@ == catalog@[t].category_of(),
        decreases catalog@.len() - j,
    {
        let k = catalog[j].category_name();
        let ghost mut at: int = 0;
        proof {
            assert(present_in(catalog@, k@)) by {
                assert(catalog@[j as int].category_of() == k@);
            }
        }
        if !is_priority_category(k) {
            let mut p: usize = 0;
            while p < r.len() && text_less(r[p].as_str(), k)
                invariant
                    p <= r@.len(),
                    forall|i: int| 0 <= i < p ==> seq_lt((#[trigger] r@[i])@, k@),
                decreases r@.len() - p,
            {
                p = p + 1;
            }
            if p < r.len() && same_text(r[p].as_str(), k) {
                proof {
                    at = p as int;
                }
            } else {
                let ghost old_r = r@;
                proof {
                    if p < old_r.len() {
                        lemma_lt_total(old_r[p as int]@, k@);
                    }
                }
                r.insert(p, k.to_owned());
                proof {
                    at = p as int;
                    assert(r@ == old_r.insert(p as int, r@[p as int]));
                    assert forall|a: int, b: int| 0 <= a < b < r@.len() implies seq_lt(
                        #[trigger] r@[a]@,
                        #[trigger] r@[b]@,
                    ) by {
                        if b == p {
                            assert(r@[a] == old_r[a]);
                        } else if a == p {
                            assert(r@[b] == old_r[b - 1]);
                            if b - 1 > p {
                                lemma_lt_transitive(k@, old_r[p as int]@, old_r[b - 1]@);
                            }
                        } else if a < p && b < p {
                            assert(r@[a] == old_r[a]);
                            assert(r@[b] == old_r[b]);
                        } else if a < p {
                            assert(r@[a] == old_r[a]);
                            assert(r@[b] == old_r[b - 1]);
                        } else {
                            assert(r@[a] == old_r[a - 1]);
                            assert(r@[b] == old_r[b - 1]);
                        }
                    }
                    assert forall|i: int| 0 <= i < r@.len() implies !is_priority(
                        (#[trigger] r@[i])@,
                    ) && present_in(catalog@, r@[i]@) by {
                        if i < p {
                            assert(r@[i] == old_r[i]);
                        } else if i > p {
                            assert(r@[i] == old_r[i - 1]);
                        }
                    }
                    assert forall|t: int|
                        0 <= t < j && !is_priority(
                            (#[trigger] catalog@[t]).category_of(),
                        ) implies exists|i: int|
                        0 <= i < r@.len() && (#[trigger] r@[i])@ == catalog@[t].category_of() by {
                        let i0 = choose|i: int|
                            0 <= i < old_r.len() && (#[trigger] old_r[i])@
                                == catalog@[t].category_of();
                        if i0 < p {
                            assert(r@[i0] == old_r[i0]);
                        } else {
                            assert(r@[i0 + 1] == old_r[i0]);
                        }
                    }
                }
            }
        }
        proof {
            assert forall|t: int|
                0 <= t < j + 1 && !is_priority(
                    (#[trigger] catalog@[t]).category_of(),
                ) implies exists|i: int|
                0 <= i < r@.len() && (#[trigger] r@[i])@ == catalog@[t].category_of() by {
                if t == j {
                    assert(r@[at]@ == catalog@[t].category_of());
                }
            }
        }
        j = j + 1;
    }
    proof {
        assert forall|k: Seq<char>| present_in(catalog@, k) && !is_priority(k) implies exists|
            i: int,
        | 0 <= i < r@.len() && (#[trigger] r@[i])@ == k by {
            let t = choose|t: int| 0 <= t < catalog@.len() && (#[trigger] catalog@[t]).category_of() == k;
            assert(!is_priority(catalog@[t].category_of()));
        }
    }
    r
}


/// The curated positions of the present categories are in range, strictly
/// increasing, and include every present category of the curated order.
pub proof fn lemma_present_positions(c: Seq<ProgramEntry>, n: int)
    requires
        0 <= n <= PRIORITY_LEN,
    ensures
        forall|i: int|
            0 <= i < present_positions(c, n).len() ==> 0 <= #[trigger] present_positions(c, n)[i]
                < n && present_in(c, priority_order()[present_positions(c, n)[i]]),
        forall|i: int, j: int|
            0 <= i < j < present_positions(c, n).len() ==> #[trigger] present_positions(c, n)[i]
                < #[trigger] present_positions(c, n)[j],
        forall|q: int|
            0 <= q < n && present_in(c, #[trigger] priority_order()[q]) ==> present_positions(
                c,
                n,
            ).contains(q),
    decreases n,
{
    if n > 0 {
        lemma_present_positions(c, n - 1);
        let prev = present_positions(c, n - 1);
        if present_in(c, priority_order()[n - 1]) {
            let cur = present_positions(c, n);
            assert(cur == prev.push(n - 1));
            assert forall|i: int| 0 <= i < prev.len() implies cur[i] == prev[i] by {}
            assert(cur[prev.len() as int] == n - 1);
            assert forall|q: int|
                0 <= q < n && present_in(c, #[trigger] priority_order()[q]) implies cur.contains(
                q,
            ) by {
                if q < n - 1 {
                    let i = choose|i: int| 0 <= i < prev.len() && prev[i] == q;
                    assert(cur[i] == q);
                } else {
                    assert(cur[prev.len() as int] == q);
                }
            }
        }
    }
}

proof fn lemma_no_positions_in_empty(n: int)
    ensures
        present_positions(Seq::<ProgramEntry>::empty(), n).len() == 0,
    decreases n,
{
    if n > 0 {
        lemma_no_positions_in_empty(n - 1);
    }
}

/// An empty catalog has an empty category index.
pub proof fn lemma_empty_catalog_index()
    ensures
        is_category_index(Seq::<ProgramEntry>::empty(), Seq::<CategoryGroup>::empty()),
{
    lemma_no_positions_in_empty(PRIORITY_LEN as int);
}

/// The category index of the catalog: one group per category present,
/// those of the curated order first and in that order, then the others
/// sorted by name; each group holds its records in catalog order.
pub fn build_category_index(catalog: &Vec<ProgramEntry>) -> (r: Vec<CategoryGroup>)
    ensures
        is_category_index(catalog@, r@),
{
    let mut r: Vec<CategoryGroup> = Vec::new();
    let mut p: usize = 0;
    proof {
        lemma_present_positions(catalog@, PRIORITY_LEN as int);
    }
    while p < PRIORITY_LEN
        invariant
            p <= PRIORITY_LEN,
            priority_order().len() == PRIORITY_LEN,
            r@.len() == present_positions(catalog@, p as int).len(),
            forall|i: int|
                0 <= i < r@.len() ==> (#[trigger] r@[i]).name@ == priority_order()[present_positions(
                    catalog@,
                    p as int,
                )[i]] && r@[i].is_group_of(catalog@),
        decreases PRIORITY_LEN - p,
    {
        let name = priority_category(p);
        let ghost before = r@;
        if has_category(catalog, name) {
            r.push(make_group(name, catalog));
            proof {
                assert forall|i: int| 0 <= i < before.len() implies r@[i] == before[i] by {}
            }
        }
        p = p + 1;
    }
    let others = sorted_other_categories(catalog);
    let m = r.len();
    let ghost curated = r@;
    let mut t: usize = 0;
    while t < others.len()
        invariant
            m == curated.len(),
            m == curated_positions(catalog@).len(),
            forall|i: int|
                0 <= i < m ==> (#[trigger] curated[i]).name@ == priority_order()[curated_positions(
                    catalog@,
                )[i]] && curated[i].is_group_of(catalog@),
            t <= others@.len(),
            r@.len() == m + t,
            forall|i: int| 0 <= i < m ==> r@[i] == curated[i],
            forall|i: int|
                0 <= i < t ==> (#[trigger] r@[m + i]).name@ == others@[i]@ && r@[m
                    + i].is_group_of(catalog@),
        decreases others@.len() - t,
    {
        r.push(make_group(others[t].as_str(), catalog));
        t = t + 1;
    }
    proof {
        let c = catalog@;
        assert forall|i: int| 0 <= i < r@.len() implies (#[trigger] r@[i]).is_group_of(c) by {
            if i >= m {
                assert(r@[m + (i - m)] == r@[i]);
            } else {
                assert(r@[i] == curated[i]);
            }
        }
        assert forall|i: int| 0 <= i < m implies (#[trigger] r@[i]).name@ == priority_order()[curated_positions(c)[i]] by {
            assert(r@[i] == curated[i]);
        }
        assert forall|i: int| m <= i < r@.len() implies !is_priority((#[trigger] r@[i]).name@)
            && present_in(c, r@[i].name@) by {
            assert(r@[m + (i - m)] == r@[i]);
        }
        assert forall|i: int, j: int| m <= i < j < r@.len() implies seq_lt(
            (#[trigger] r@[i]).name@,
            (#[trigger] r@[j]).name@,
        ) by {
            assert(r@[m + (i - m)] == r@[i]);
            assert(r@[m + (j - m)] == r@[j]);
            assert(seq_lt(others@[i - m]@, others@[j - m]@));
        }
        assert forall|k: Seq<char>| present_in(c, k) && !is_priority(k) implies exists|i: int|
            m <= i < r@.len() && (#[trigger] r@[i]).name@ == k by {
            let i0 = choose|i: int| 0 <= i < others@.len() && (#[trigger] others@[i])@ == k;
            assert(r@[m + i0].name@ == k);
        }
    }
    r
}

/// The label of a category in the category tree: icon, name and count.
pub open spec fn label_of(icon: Seq<char>, name: Seq<char>, count: nat) -> Seq<char> {
    icon + " "@ + name + " ("@ + decimal_of(count) + ")"@
}

/// The label of a group in the category tree: `"<icon> <name> (<count>)"`.
pub fn category_label(g: &CategoryGroup) -> (r: String)
    ensures
        r@ == label_of(g.icon@, g.name@, g.members@.len()),
{
    let mut s = g.icon.clone();
    s.append(" ");
    s.append(g.name.as_str());
    s.append(" (");
    let digits = decimal(g.count());
    s.append(digits.as_str());
    s.append(")");
    s
}


/// In a category index a curated category never follows one outside the
/// curated order, curated categories keep the curated order, and the others
/// are sorted by name.
pub proof fn lemma_index_order(c: Seq<ProgramEntry>, r: Seq<CategoryGroup>)
    requires
        is_category_index(c, r),
    ensures
        forall|i: int, j: int|
            0 <= i < j < r.len() && is_priority((#[trigger] r[j]).name@) ==> is_priority(
                (#[trigger] r[i]).name@,
            ) && exists|a: int, b: int|
                0 <= a < b < PRIORITY_LEN && priority_order()[a] == r[i].name@
                    && priority_order()[b] == r[j].name@,
        forall|i: int, j: int|
            0 <= i < j < r.len() && !is_priority((#[trigger] r[i]).name@) && !is_priority(
                (#[trigger] r[j]).name@,
            ) ==> seq_lt(r[i].name@, r[j].name@),
{
    let pos = curated_positions(c);
    let m = pos.len();
    lemma_present_positions(c, PRIORITY_LEN as int);
    assert forall|i: int, j: int|
        0 <= i < j < r.len() && is_priority((#[trigger] r[j]).name@) implies is_priority(
        (#[trigger] r[i]).name@,
    ) && exists|a: int, b: int|
        0 <= a < b < PRIORITY_LEN && priority_order()[a] == r[i].name@ && priority_order()[b]
            == r[j].name@ by {
        assert(j < m);
        assert(priority_order()[pos[i]] == r[i].name@);
        assert(priority_order()[pos[j]] == r[j].name@);
        assert(pos[i] < pos[j]);
        assert(priority_order()[pos[i]] == r[i].name@);
    }
    assert forall|i: int, j: int|
        0 <= i < j < r.len() && !is_priority((#[trigger] r[i]).name@) && !is_priority(
            (#[trigger] r[j]).name@,
        ) implies seq_lt(r[i].name@, r[j].name@) by {
        if i < m {
            assert(priority_order()[pos[i]] == r[i].name@);
        }
    }
}

/// Two category names with the same characters select the same records.
pub proof fn lemma_category_view_by_text(a: String, b: String, c: Seq<ProgramEntry>, n: int)
    requires
        a@ == b@,
    ensures
        shown_prefix(ViewSelector::Category(a), c, n) == shown_prefix(
            ViewSelector::Category(b),
            c,
            n,
        ),
    decreases n,
{
    if n > 0 {
        lemma_category_view_by_text(a, b, c, n - 1);
    }
}

/// For a category present in the catalog, every record that its view lists
/// is classified under it, and the index has its group, which counts as
/// many records as the view lists.
pub proof fn lemma_category_view_matches_index(
    c: Seq<ProgramEntry>,
    r: Seq<CategoryGroup>,
    k: String,
)
    requires
        is_category_index(c, r),
        present_in(c, k@),
        c.len() <= usize::MAX,
    ensures
        forall|j: int|
            0 <= j < shown(ViewSelector::Category(k), c).len() ==> c[#[trigger] shown(
                ViewSelector::Category(k),
                c,
            )[j] as int].category_of() == k@,
        exists|i: int|
            0 <= i < r.len() && (#[trigger] r[i]).name@ == k@ && r[i].members@.len() == shown(
                ViewSelector::Category(k),
                c,
            ).len(),
{
    lemma_shown_prefix(ViewSelector::Category(k), c, c.len() as int);
    let pos = curated_positions(c);
    let m = pos.len();
    lemma_present_positions(c, PRIORITY_LEN as int);
    let i: int = if is_priority(k@) {
        let q = choose|q: int| 0 <= q < priority_order().len() && priority_order()[q] == k@;
        assert(pos.contains(q));
        choose|i: int| 0 <= i < m && pos[i] == q
    } else {
        choose|i: int| m <= i < r.len() && (#[trigger] r[i]).name@ == k@
    };
    assert(r[i].name@ == k@);
    lemma_category_view_by_text(r[i].name, k, c, c.len() as int);
}


proof fn lemma_same_positions(c1: Seq<ProgramEntry>, c2: Seq<ProgramEntry>, n: int)
    requires
        forall|k: Seq<char>| present_in(c1, k) == present_in(c2, k),
    ensures
        present_positions(c1, n) == present_positions(c2, n),
    decreases n,
{
    if n > 0 {
        lemma_same_positions(c1, c2, n - 1);
        assert(present_in(c1, priority_order()[n - 1]) == present_in(c2, priority_order()[n - 1]));
    }
}

/// Strictly sorted, each holding what the other holds.
pub open spec fn same_sorted_names(t1: Seq<Seq<char>>, t2: Seq<Seq<char>>) -> bool {
    &&& forall|a: int, b: int| 0 <= a < b < t1.len() ==> seq_lt(#[trigger] t1[a], #[trigger] t1[b])
    &&& forall|a: int, b: int| 0 <= a < b < t2.len() ==> seq_lt(#[trigger] t2[a], #[trigger] t2[b])
    &&& forall|a: int| 0 <= a < t1.len() ==> t2.contains(#[trigger] t1[a])
    &&& forall|a: int| 0 <= a < t2.len() ==> t1.contains(#[trigger] t2[a])
}

proof fn lemma_sorted_agree_upto(t1: Seq<Seq<char>>, t2: Seq<Seq<char>>, n: int)
    requires
        0 <= n <= t1.len(),
        n <= t2.len(),
        same_sorted_names(t1, t2),
    ensures
        forall|j: int| 0 <= j < n ==> #[trigger] t1[j] == t2[j],
    decreases n,
{
    if n > 0 {
        lemma_sorted_agree_upto(t1, t2, n - 1);
        let i = n - 1;
        let x = t1[i];
        let y = t2[i];
        if x != y {
            lemma_lt_total(x, y);
            if seq_lt(x, y) {
                assert(t2.contains(t1[i]));
                let b = choose|b: int| 0 <= b < t2.len() && t2[b] == x;
                if b < i {
                    assert(t1[b] == t2[b]);
                    lemma_lt_irreflexive(x);
                } else {
                    lemma_lt_asymmetric(x, y);
                }
            } else {
                assert(t1.contains(t2[i]));
                let b = choose|b: int| 0 <= b < t1.len() && t1[b] == y;
                if b < i {
                    assert(t1[b] == t2[b]);
                    lemma_lt_irreflexive(y);
                } else {
                    lemma_lt_asymmetric(y, x);
                }
            }
        }
    }
}

/// Two strictly sorted sequences that hold the same names are equal.
pub proof fn lemma_sorted_names_unique(t1: Seq<Seq<char>>, t2: Seq<Seq<char>>)
    requires
        same_sorted_names(t1, t2),
    ensures
        t1 == t2,
{
    let n = if t1.len() < t2.len() {
        t1.len() as int
    } else {
        t2.len() as int
    };
    lemma_sorted_agree_upto(t1, t2, n);
    if t1.len() > t2.len() {
        assert(t2.contains(t1[n]));
        let b = choose|b: int| 0 <= b < t2.len() && t2[b] == t1[n];
        assert(t1[b] == t2[b]);
        lemma_lt_irreflexive(t1[n]);
    } else if t2.len() > t1.len() {
        assert(t1.contains(t2[n]));
        let b = choose|b: int| 0 <= b < t1.len() && t1[b] == t2[n];
        assert(t1[b] == t2[b]);
        lemma_lt_irreflexive(t2[n]);
    }
    assert(t1 =~= t2);
}

/// The names of the groups past position `m`.
pub open spec fn names_from(r: Seq<CategoryGroup>, m: int) -> Seq<Seq<char>> {
    Seq::new((r.len() - m) as nat, |i: int| r[m + i].name@)
}

/// The order of the category index depends only on which categories the
/// catalog holds, not on the order of its records.
pub proof fn lemma_index_order_ignores_record_order(
    c1: Seq<ProgramEntry>,
    r1: Seq<CategoryGroup>,
    c2: Seq<ProgramEntry>,
    r2: Seq<CategoryGroup>,
)
    requires
        is_category_index(c1, r1),
        is_category_index(c2, r2),
        forall|k: Seq<char>| present_in(c1, k) == present_in(c2, k),
    ensures
        r1.len() == r2.len(),
        forall|i: int| 0 <= i < r1.len() ==> (#[trigger] r1[i]).name@ == r2[i].name@,
{
    lemma_same_positions(c1, c2, PRIORITY_LEN as int);
    let m = curated_positions(c1).len() as int;
    let t1 = names_from(r1, m);
    let t2 = names_from(r2, m);
    assert forall|a: int, b: int| 0 <= a < b < t1.len() implies seq_lt(
        #[trigger] t1[a],
        #[trigger] t1[b],
    ) by {
        assert(seq_lt(r1[m + a].name@, r1[m + b].name@));
    }
    assert forall|a: int, b: int| 0 <= a < b < t2.len() implies seq_lt(
        #[trigger] t2[a],
        #[trigger] t2[b],
    ) by {
        assert(seq_lt(r2[m + a].name@, r2[m + b].name@));
    }
    assert forall|a: int| 0 <= a < t1.len() implies t2.contains(#[trigger] t1[a]) by {
        let k = r1[m + a].name@;
        assert(present_in(c2, k) && !is_priority(k));
        let b = choose|b: int| m <= b < r2.len() && (#[trigger] r2[b]).name@ == k;
        assert(t2[b - m] == k);
    }
    assert forall|a: int| 0 <= a < t2.len() implies t1.contains(#[trigger] t2[a]) by {
        let k = r2[m + a].name@;
        assert(present_in(c1, k) && !is_priority(k));
        let b = choose|b: int| m <= b < r1.len() && (#[trigger] r1[b]).name@ == k;
        assert(t1[b - m] == k);
    }
    lemma_sorted_names_unique(t1, t2);
    assert(t1.len() == t2.len());
    assert forall|i: int| 0 <= i < r1.len() implies (#[trigger] r1[i]).name@ == r2[i].name@ by {
        if i >= m {
            assert(t1[i - m] == t2[i - m]);
        }
    }
}

} // verus!
