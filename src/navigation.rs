//! The category tree's labels, and the view that a selected label stands for.

use vstd::prelude::*;
use crate::category::{category_label, label_of, CategoryGroup};
use crate::filter::ViewSelector;
use crate::text::{chars_of, contains_text, decimal_of, digit_char, has_infix};

verus! {

/// The label of the line that separates categories from the fixed views.
pub open spec fn separator_label() -> Seq<char> {
    "\u{2500}\u{2500}\u{2500}\u{2500}\u{2500}\u{2500}\u{2500}\u{2500}\u{2500}\u{2500}\u{2500}\u{2500}\u{2500}"@
}

/// The label of the stealth view.
pub open spec fn stealth_label() -> Seq<char> {
    "\u{1F6E1} Stealth Mode"@
}

/// The label of the whole-catalog view.
pub open spec fn all_label() -> Seq<char> {
    "\u{1F4E6} All Software"@
}

/// The labels of the category tree: one per group, in index order, then the
/// separator, the stealth view and the whole-catalog view.
pub fn tree_labels(groups: &Vec<CategoryGroup>) -> (r: Vec<String>)
    ensures
        r@.len() == groups@.len() + 3,
        forall|i: int|
            0 <= i < groups@.len() ==> (#[trigger] r@[i])@ == label_of(
                groups@[i].icon@,
                groups@[i].name@,
                groups@[i].members@.len(),
            ),
        r@[groups@.len() as int]@ == separator_label(),
        r@[groups@.len() + 1int]@ == stealth_label(),
        r@[groups@.len() + 2int]@ == all_label(),
{
    let mut r: Vec<String> = Vec::new();
    let mut i: usize = 0;
    while i < groups.len()
        invariant
            i <= groups@.len(),
            r@.len() == i,
            forall|t: int|
                0 <= t < i ==> (#[trigger] r@[t])@ == label_of(
                    groups@[t].icon@,
                    groups@[t].name@,
                    groups@[t].members@.len(),
                ),
        decreases groups@.len() - i,
    {
        r.push(category_label(&groups[i]));
        i = i + 1;
    }
    r.push("\u{2500}\u{2500}\u{2500}\u{2500}\u{2500}\u{2500}\u{2500}\u{2500}\u{2500}\u{2500}\u{2500}\u{2500}\u{2500}".to_owned());
    r.push("\u{1F6E1} Stealth Mode".to_owned());
    r.push("\u{1F4E6} All Software".to_owned());
    r
}

/// Position of the first space in `s` at or after `i`, or -1.
pub open spec fn first_space_from(s: Seq<char>, i: int) -> int
    decreases s.len() - i,
{
    if i < 0 || i >= s.len() {
        -1
    } else if s[i] == ' ' {
        i
    } else {
        first_space_from(s, i + 1)
    }
}

/// Position of the last `" ("` that starts before `n - 1` in `t`, or -1.
pub open spec fn last_count_open(t: Seq<char>, n: int) -> int
    decreases n,
{
    if n < 2 || n > t.len() {
        -1
    } else if t[n - 2] == ' ' && t[n - 1] == '(' {
        n - 2
    } else {
        last_count_open(t, n - 1)
    }
}

/// The category name that a tree label carries: what follows the icon and
/// its space, up to the last `" ("` that opens the count. A label without a
/// space carries no name.
pub open spec fn name_in_label(s: Seq<char>) -> Seq<char> {
    let f = first_space_from(s, 0);
    if f < 0 {
        Seq::empty()
    } else {
        let rest = s.skip(f + 1);
        let k = last_count_open(rest, rest.len() as int);
        if k < 0 {
            rest
        } else {
            rest.take(k)
        }
    }
}

/// The category name that a tree label carries. Names of several words
/// come back whole.
pub fn category_in_label(label: &str) -> (r: String)
    ensures
        r@ == name_in_label(label@),
{
    let x = chars_of(label);
    let n = x.len();
    let mut f: usize = 0;
    while f < n && x[f] != ' '
        invariant
            x@ == label@,
            n == x@.len(),
            f <= n,
            first_space_from(label@, 0) == first_space_from(label@, f as int),
        decreases n - f,
    {
        f = f + 1;
    }
    if f == n {
        return String::new();
    }
    let start = f + 1;
    let ghost rest = label@.skip(start as int);
    let mut k: usize = n;
    while k - start >= 2 && !(x[k - 2] == ' ' && x[k - 1] == '(')
        invariant
            x@ == label@,
            n == x@.len(),
            start <= n,
            start <= k <= n,
            rest == label@.skip(start as int),
            last_count_open(rest, rest.len() as int) == last_count_open(rest, k - start),
        decreases k,
    {
        k = k - 1;
    }
    if k - start >= 2 {
        label.substring_char(start, k - 2).to_owned()
    } else {
        label.substring_char(start, n).to_owned()
    }
}

/// The view that a selected tree label stands for: the whole catalog, the
/// stealth view, or the category that the label names.
pub fn selector_for_label(label: &str) -> (r: ViewSelector)
    ensures
        match r {
            ViewSelector::All => has_infix(label@, "All Software"@),
            ViewSelector::Stealth => !has_infix(label@, "All Software"@) && has_infix(
                label@,
                "Stealth Mode"@,
            ),
            ViewSelector::Category(k) => !has_infix(label@, "All Software"@) && !has_infix(
                label@,
                "Stealth Mode"@,
            ) && k@ == name_in_label(label@),
        },
{
    if contains_text(label, "All Software") {
        ViewSelector::All
    } else if contains_text(label, "Stealth Mode") {
        ViewSelector::Stealth
    } else {
        ViewSelector::Category(category_in_label(label))
    }
}


proof fn lemma_decimal_has_no_paren(n: nat)
    ensures
        forall|i: int| 0 <= i < decimal_of(n).len() ==> #[trigger] decimal_of(n)[i] != '(',
    decreases n,
{
    if n >= 10 {
        lemma_decimal_has_no_paren(n / 10);
        let d = decimal_of(n);
        assert(d == decimal_of(n / 10).push(digit_char((n % 10) as int)));
        assert forall|i: int| 0 <= i < d.len() implies #[trigger] d[i] != '(' by {
            if i < d.len() - 1 {
                assert(d[i] == decimal_of(n / 10)[i]);
            }
        }
    }
}

proof fn lemma_first_space_after_icon(s: Seq<char>, icon_len: int, i: int)
    requires
        0 <= i <= icon_len < s.len(),
        s[icon_len] == ' ',
        forall|t: int| 0 <= t < icon_len ==> s[t] != ' ',
    ensures
        first_space_from(s, i) == icon_len,
    decreases icon_len - i,
{
    if i < icon_len {
        lemma_first_space_after_icon(s, icon_len, i + 1);
    }
}

proof fn lemma_count_open_at_name_end(t: Seq<char>, name_len: int, n: int)
    requires
        0 <= name_len,
        name_len + 2 <= n <= t.len(),
        t[name_len] == ' ',
        t[name_len + 1] == '(',
        forall|j: int| name_len + 2 <= j < t.len() ==> t[j] != '(',
    ensures
        last_count_open(t, n) == name_len,
    decreases n,
{
    if n > name_len + 2 {
        lemma_count_open_at_name_end(t, name_len, n - 1);
    }
}

/// Reading the category name back from a category's tree label gives the
/// name, whenever the icon holds no space.
pub proof fn lemma_label_round_trip(icon: Seq<char>, name: Seq<char>, count: nat)
    requires
        !icon.contains(' '),
    ensures
        name_in_label(label_of(icon, name, count)) == name,
{
    reveal_strlit(" ");
    reveal_strlit(" (");
    reveal_strlit(")");
    let d = decimal_of(count);
    let s = label_of(icon, name, count);
    let il = icon.len() as int;
    assert(s =~= icon + seq![' '] + name + seq![' ', '('] + d + seq![')']);
    assert forall|t: int| 0 <= t < il implies s[t] != ' ' by {
        assert(s[t] == icon[t]);
    }
    lemma_first_space_after_icon(s, il, 0);
    let rest = s.skip(il + 1);
    assert(rest =~= name + seq![' ', '('] + d + seq![')']);
    let nl = name.len() as int;
    lemma_decimal_has_no_paren(count);
    assert forall|j: int| nl + 2 <= j < rest.len() implies rest[j] != '(' by {
        if j < nl + 2 + d.len() {
            assert(rest[j] == d[j - nl - 2]);
        }
    }
    lemma_count_open_at_name_end(rest, nl, rest.len() as int);
    assert(rest.take(nl) =~= name);
}

} // verus!
