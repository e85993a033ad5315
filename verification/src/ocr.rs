//! The text of scanned pages: which pages are recognised, in what order, and what comes together.

use vstd::multiset::Multiset;
use vstd::prelude::*;
use crate::encoding::{lossy, lossy_text};
use crate::search::{begins_with, ends_with, finishes_with, starts_with};
use crate::text::{chars_of, push_text, strings};

verus! {

// Order

/// Whether the text `a` comes before `b`, or is the same, in the order of their characters' numbers.
/// This is the order of their bytes as well.
pub open spec fn text_le(a: Seq<char>, b: Seq<char>) -> bool
    decreases a.len(),
{
    if a.len() == 0 {
        true
    } else if b.len() == 0 {
        false
    } else if a[0] != b[0] {
        a[0] < b[0]
    } else {
        text_le(a.drop_first(), b.drop_first())
    }
}

/// Whether the texts stand in order.
pub open spec fn in_order(s: Seq<Seq<char>>) -> bool {
    forall|i: int, j: int| 0 <= i <= j < s.len() ==> text_le(#[trigger] s[i], #[trigger] s[j])
}

proof fn lemma_text_le_total(a: Seq<char>, b: Seq<char>)
    ensures
        text_le(a, b) || text_le(b, a),
    decreases a.len(),
{
    if a.len() > 0 && b.len() > 0 && a[0] == b[0] {
        lemma_text_le_total(a.drop_first(), b.drop_first());
    }
}

proof fn lemma_text_le_transitive(a: Seq<char>, b: Seq<char>, c: Seq<char>)
    requires
        text_le(a, b),
        text_le(b, c),
    ensures
        text_le(a, c),
    decreases a.len(),
{
    if a.len() > 0 && b.len() > 0 && c.len() > 0 && a[0] == b[0] && b[0] == c[0] {
        lemma_text_le_transitive(a.drop_first(), b.drop_first(), c.drop_first());
    }
}

/// Two texts that come before each other are the same.
proof fn lemma_text_le_antisymmetric(a: Seq<char>, b: Seq<char>)
    requires
        text_le(a, b),
        text_le(b, a),
    ensures
        a == b,
    decreases a.len(),
{
    if a.len() > 0 && b.len() > 0 {
        lemma_text_le_antisymmetric(a.drop_first(), b.drop_first());
        assert(a =~= seq![a[0]] + a.drop_first());
        assert(b =~= seq![b[0]] + b.drop_first());
    } else {
        assert(a =~= b);
    }
}

/// Whether the text `a` comes before `b` or is the same.
pub fn text_before(a: &str, b: &str) -> (le: bool)
    ensures
        le == text_le(a@, b@),
{
    let x = chars_of(a);
    let y = chars_of(b);
    let mut i: usize = 0;
    proof {
        assert(x@.skip(0) == x@);
        assert(y@.skip(0) == y@);
    }
    while i < x.len()
        invariant
            i <= x@.len(),
            i <= y@.len(),
            text_le(a@, b@) == text_le(x@.skip(i as int), y@.skip(i as int)),
        decreases x@.len() - i,
    {
        if i >= y.len() {
            return false;
        }
        if x[i] != y[i] {
            return x[i] < y[i];
        }
        proof {
            assert(x@.skip(i as int).drop_first() == x@.skip(i + 1));
            assert(y@.skip(i as int).drop_first() == y@.skip(i + 1));
        }
        i = i + 1;
    }
    true
}

/// Puts a text in its place among texts that stand in order.
fn insert_in_order(v: &mut Vec<String>, s: String)
    requires
        in_order(strings(old(v)@)),
    ensures
        in_order(strings(final(v)@)),
        strings(final(v)@).to_multiset() == strings(old(v)@).to_multiset().insert(s@),
{
    let ghost before = strings(v@);
    let mut i: usize = 0;
    while i < v.len() && text_before(&v[i], &s)
        invariant
            i <= v@.len(),
            before == strings(v@),
            forall|j: int| 0 <= j < i ==> text_le(#[trigger] before[j], s@),
        decreases v@.len() - i,
    {
        i = i + 1;
    }
    proof {
        let after = before.insert(i as int, s@);
        assert(strings(v@.insert(i as int, s)) == after);
        if i < v@.len() {
            lemma_text_le_total(before[i as int], s@);
            assert forall|j: int| i <= j < before.len() implies text_le(s@, #[trigger] before[j]) by {
                lemma_text_le_transitive(s@, before[i as int], before[j]);
            }
        }
        lemma_text_le_total(s@, s@);
        assert forall|j: int, k: int| 0 <= j <= k < after.len() implies text_le(
            #[trigger] after[j],
            #[trigger] after[k],
        ) by {
            let jj = if j < i { j } else { j - 1 };
            let kk = if k < i { k } else { k - 1 };
            if j != i {
                assert(after[j] == before[jj]);
            }
            if k != i {
                assert(after[k] == before[kk]);
            }
        }
        assert(after.remove(i as int) =~= before);
        vstd::seq_lib::to_multiset_remove(after, i as int);
        after.to_multiset_ensures();
        assert(after[i as int] == s@);
        assert(after.contains(s@));
        assert(after.to_multiset().remove(s@).insert(s@) =~= after.to_multiset());
    }
    v.insert(i, s);
}

// Pages

/// Whether a file of this name is a page: `page-`, something, `.png`.
pub open spec fn is_page(name: Seq<char>) -> bool {
    begins_with(name, "page-"@) && finishes_with(name, ".png"@)
}

/// Whether a file of this name is a page.
pub fn is_page_name(name: &str) -> (b: bool)
    ensures
        b == is_page(name@),
{
    starts_with(name, "page-") && ends_with(name, ".png")
}

/// The names of pages among the names.
pub open spec fn pages_among(names: Seq<Seq<char>>) -> Seq<Seq<char>> {
    names.filter(|name: Seq<char>| is_page(name))
}

/// The pages among the files, in the order of their names.
pub fn order_pages(names: &Vec<String>) -> (pages: Vec<String>)
    ensures
        in_order(strings(pages@)),
        strings(pages@).to_multiset() == pages_among(strings(names@)).to_multiset(),
{
    let ghost all = strings(names@);
    let mut pages: Vec<String> = Vec::new();
    let mut i: usize = 0;
    proof {
        reveal(Seq::filter);
        assert(strings(pages@) == Seq::<Seq<char>>::empty());
        assert(all.take(0) == Seq::<Seq<char>>::empty());
        assert(pages_among(all.take(0)) == Seq::<Seq<char>>::empty());
    }
    while i < names.len()
        invariant
            i <= names@.len(),
            all == strings(names@),
            in_order(strings(pages@)),
            strings(pages@).to_multiset() == pages_among(all.take(i as int)).to_multiset(),
        decreases names@.len() - i,
    {
        let name = names[i].clone();
        proof {
            reveal(Seq::filter);
            assert(all.take(i + 1).drop_last() == all.take(i as int));
            assert(all.take(i + 1).last() == name@);
            vstd::seq_lib::to_multiset_build(pages_among(all.take(i as int)), name@);
        }
        if is_page_name(&name) {
            insert_in_order(&mut pages, name);
        }
        i = i + 1;
    }
    assert(all.take(i as int) == all);
    pages
}

/// There is only one way to put pages in order.
pub proof fn lemma_one_order(a: Seq<Seq<char>>, b: Seq<Seq<char>>)
    requires
        in_order(a),
        in_order(b),
        a.to_multiset() == b.to_multiset(),
    ensures
        a == b,
    decreases a.len(),
{
    a.to_multiset_ensures();
    b.to_multiset_ensures();
    if a.len() == 0 {
        assert(a =~= b);
    } else {
        assert(a.contains(a[0]) && b.contains(b[0]));
        assert(a.to_multiset().count(a[0]) > 0 && b.to_multiset().count(a[0]) > 0);
        assert(b.to_multiset().count(b[0]) > 0 && a.to_multiset().count(b[0]) > 0);
        let i = choose|i: int| 0 <= i < b.len() && b[i] == a[0];
        let j = choose|j: int| 0 <= j < a.len() && a[j] == b[0];
        lemma_text_le_antisymmetric(a[0], b[0]);
        let a1 = a.remove(0);
        let b1 = b.remove(0);
        vstd::seq_lib::to_multiset_remove(a, 0);
        vstd::seq_lib::to_multiset_remove(b, 0);
        assert(in_order(a1)) by {
            assert forall|m: int, n: int| 0 <= m <= n < a1.len() implies text_le(
                #[trigger] a1[m],
                #[trigger] a1[n],
            ) by {
                assert(a1[m] == a[m + 1] && a1[n] == a[n + 1]);
            }
        }
        assert(in_order(b1)) by {
            assert forall|m: int, n: int| 0 <= m <= n < b1.len() implies text_le(
                #[trigger] b1[m],
                #[trigger] b1[n],
            ) by {
                assert(b1[m] == b[m + 1] && b1[n] == b[n + 1]);
            }
        }
        lemma_one_order(a1, b1);
        assert(a =~= seq![a[0]] + a1);
        assert(b =~= seq![b[0]] + b1);
    }
}

// Recognition

/// What a page adds to the text: what was recognised and a line break, or nothing where the
/// recognition failed.
pub open spec fn page_text(success: bool, output: Seq<u8>) -> Seq<char> {
    if success {
        lossy(output).push('\n')
    } else {
        Seq::empty()
    }
}

/// What the pages add to the text, one after the other.
pub open spec fn pages_text(outputs: Seq<(bool, Seq<u8>)>) -> Seq<char>
    decreases outputs.len(),
{
    if outputs.len() == 0 {
        Seq::empty()
    } else {
        pages_text(outputs.drop_last()) + page_text(outputs.last().0, outputs.last().1)
    }
}

/// The recognition of the pages of a file, one after the other.
pub struct OcrRun {
    pages: Vec<String>,
    done: usize,
    text: String,
    outputs: Ghost<Seq<(bool, Seq<u8>)>>,
}

impl OcrRun {
    /// The pages, in the order in which they are recognised.
    pub closed spec fn pages(&self) -> Seq<Seq<char>> {
        strings(self.pages@)
    }

    /// What came out of the pages that are done, in their order: whether the recognition went well,
    /// and what it gave.
    pub closed spec fn outputs(&self) -> Seq<(bool, Seq<u8>)> {
        self.outputs@
    }

    /// Whether no more pages are done than there are, and the text is what came of them.
    pub closed spec fn wf(&self) -> bool {
        &&& self.done <= self.pages@.len()
        &&& self.outputs@.len() == self.done
        &&& self.text@ == pages_text(self.outputs@)
    }

    /// Begins with the pages among the files; with none where the file could not be parted into
    /// pages.
    pub fn start(parted: bool, names: &Vec<String>) -> (run: OcrRun)
        ensures
            run.wf(),
            run.outputs() == Seq::<(bool, Seq<u8>)>::empty(),
            in_order(run.pages()),
            run.pages().to_multiset() == if parted {
                pages_among(strings(names@)).to_multiset()
            } else {
                Multiset::empty()
            },
    {
        let pages = if parted {
            order_pages(names)
        } else {
            Vec::new()
        };
        proof {
            if !parted {
                assert(strings(pages@) == Seq::<Seq<char>>::empty());
                strings(pages@).to_multiset_ensures();
                assert(strings(pages@).to_multiset() =~= Multiset::<Seq<char>>::empty());
            }
        }
        OcrRun { pages, done: 0, text: String::new(), outputs: Ghost(Seq::empty()) }
    }

    /// The page that comes next, if one is left.
    pub fn next_page(&self) -> (page: Option<String>)
        requires
            self.wf(),
        ensures
            match page {
                Some(name) => self.outputs().len() < self.pages().len() && name@
                    == self.pages()[self.outputs().len() as int],
                None => self.outputs().len() == self.pages().len(),
            },
    {
        if self.done < self.pages.len() {
            Some(self.pages[self.done].clone())
        } else {
            None
        }
    }

    /// Takes what came out of the recognition of the next page.
    pub fn take_output(&mut self, success: bool, output: &[u8])
        requires
            old(self).wf(),
            old(self).outputs().len() < old(self).pages().len(),
        ensures
            final(self).wf(),
            final(self).pages() == old(self).pages(),
            final(self).outputs() == old(self).outputs().push((success, output@)),
    {
        let ghost before = self.text@;
        if success {
            push_text(&mut self.text, &lossy_text(output));
            self.text.push('\n');
        }
        assert(self.text@ == before + page_text(success, output@));
        assert(self.done < self.pages.len());
        proof {
            lemma_pages_text_grows(self.outputs@, success, output@);
        }
        self.outputs = Ghost(self.outputs@.push((success, output@)));
        self.done = self.done + 1;
    }

    /// The text of all pages that are done.
    pub fn into_text(self) -> (text: String)
        requires
            self.wf(),
        ensures
            text@ == pages_text(self.outputs()),
    {
        self.text
    }
}

/// The text grows page by page: what came of the pages before stays at its front.
pub proof fn lemma_pages_text_grows(outputs: Seq<(bool, Seq<u8>)>, success: bool, output: Seq<u8>)
    ensures
        pages_text(outputs.push((success, output))) == pages_text(outputs) + page_text(
            success,
            output,
        ),
{
    assert(outputs.push((success, output)).drop_last() == outputs);
}

// What holds of all of this

/// A page that was recognised adds all that was recognised on it and a line break to the text, and
/// a page that was not adds nothing.
pub proof fn lemma_page_is_added(outputs: Seq<(bool, Seq<u8>)>, output: Seq<u8>)
    ensures
        pages_text(outputs.push((true, output))) == pages_text(outputs) + lossy(output) + seq!['\n'],
        pages_text(outputs.push((false, output))) == pages_text(outputs),
        pages_text(Seq::<(bool, Seq<u8>)>::empty()) == Seq::<char>::empty(),
{
    lemma_pages_text_grows(outputs, true, output);
    lemma_pages_text_grows(outputs, false, output);
    assert(pages_text(outputs) + lossy(output).push('\n') == pages_text(outputs) + lossy(output)
        + seq!['\n']);
    assert(pages_text(outputs) + Seq::<char>::empty() == pages_text(outputs));
}

/// The text of pages is the text of the first of them and then that of the others.
pub proof fn lemma_pages_apart(a: Seq<(bool, Seq<u8>)>, b: Seq<(bool, Seq<u8>)>)
    ensures
        pages_text(a + b) == pages_text(a) + pages_text(b),
    decreases b.len(),
{
    if b.len() == 0 {
        assert(a + b == a);
        assert(pages_text(a) + pages_text(b) == pages_text(a));
    } else {
        assert((a + b).drop_last() == a + b.drop_last());
        assert((a + b).last() == b.last());
        lemma_pages_apart(a, b.drop_last());
        assert(pages_text(a + b) == pages_text(a) + pages_text(b));
    }
}

/// The pages are the files whose names begin with `page-` and end with `.png`.
pub proof fn lemma_page_names(name: Seq<char>)
    ensures
        is_page(name) <==> exists|middle: Seq<char>|
            name == #[trigger] ("page-"@ + middle + ".png"@),
{
    reveal_strlit("page-");
    reveal_strlit(".png");
    let a = "page-"@;
    let b = ".png"@;
    if is_page(name) {
        if name.len() < 9 {
            let at = name.len() - 4;
            assert(name.subrange(at, at + 4)[0] == '.');
            if at < 5 {
                assert(name.subrange(0, 5)[at] == a[at]);
                assert(name[at] == '.');
            }
        }
        let middle = name.subrange(5, name.len() - 4);
        assert(name =~= a + middle + b) by {
            assert forall|i: int| 0 <= i < name.len() implies name[i] == (a + middle + b)[i] by {
                if i < 5 {
                    assert(name.subrange(0, 5)[i] == a[i]);
                } else if i >= name.len() - 4 {
                    let k = i - (name.len() - 4);
                    assert(name.subrange(name.len() - 4, name.len() as int)[k] == b[k]);
                }
            }
        }
    }
    if exists|middle: Seq<char>| name == #[trigger] (a + middle + b) {
        let middle = choose|middle: Seq<char>| name == #[trigger] (a + middle + b);
        assert(name.subrange(0, 5) =~= a);
        assert(name.subrange(name.len() - 4, name.len() as int) =~= b);
    }
}

/// Every file that is a page is among the pages, as often as it is among the files, and no other
/// file is.
pub proof fn lemma_all_pages(names: Seq<Seq<char>>, name: Seq<char>)
    ensures
        pages_among(names).to_multiset().count(name) == if is_page(name) {
            names.to_multiset().count(name)
        } else {
            0
        },
    decreases names.len(),
{
    reveal(Seq::filter);
    let pages = pages_among(names);
    if names.len() == 0 {
        pages.to_multiset_ensures();
        names.to_multiset_ensures();
        assert(pages =~= Seq::<Seq<char>>::empty());
        assert(names =~= Seq::<Seq<char>>::empty());
        if pages.to_multiset().count(name) > 0 {
            assert(pages.contains(name));
        }
        if names.to_multiset().count(name) > 0 {
            assert(names.contains(name));
        }
    } else {
        let front = names.drop_last();
        lemma_all_pages(front, name);
        assert(front.push(names.last()) =~= names);
        vstd::seq_lib::to_multiset_build(front, names.last());
        vstd::seq_lib::to_multiset_build(pages_among(front), names.last());
    }
}

/// A text comes before another if it is what the other begins with, or if the first character in
/// which they differ has the smaller number.
pub proof fn lemma_text_order(a: Seq<char>, b: Seq<char>)
    ensures
        text_le(a, b) <==> {
            ||| a.len() <= b.len() && forall|i: int| 0 <= i < a.len() ==> #[trigger] a[i] == b[i]
            ||| exists|k: int|
                0 <= k < a.len() && k < b.len() && #[trigger] a[k] < b[k] && forall|i: int|
                    0 <= i < k ==> #[trigger] a[i] == b[i]
        },
    decreases a.len(),
{
    if a.len() > 0 && b.len() > 0 && a[0] == b[0] {
        let a1 = a.drop_first();
        let b1 = b.drop_first();
        lemma_text_order(a1, b1);
        if a1.len() <= b1.len() && forall|i: int| 0 <= i < a1.len() ==> #[trigger] a1[i] == b1[i] {
            assert forall|i: int| 0 <= i < a.len() implies #[trigger] a[i] == b[i] by {
                if i > 0 {
                    assert(a1[i - 1] == b1[i - 1]);
                }
            }
        } else if text_le(a1, b1) {
            let k = choose|k: int|
                0 <= k < a1.len() && k < b1.len() && #[trigger] a1[k] < b1[k] && forall|i: int|
                    0 <= i < k ==> #[trigger] a1[i] == b1[i];
            assert forall|i: int| 0 <= i < k + 1 implies #[trigger] a[i] == b[i] by {
                if i > 0 {
                    assert(a1[i - 1] == b1[i - 1]);
                }
            }
            assert(a[k + 1] < b[k + 1]);
        }
        if a.len() <= b.len() && forall|i: int| 0 <= i < a.len() ==> #[trigger] a[i] == b[i] {
            assert forall|i: int| 0 <= i < a1.len() implies #[trigger] a1[i] == b1[i] by {
                assert(a[i + 1] == b[i + 1]);
            }
        }
        if exists|k: int|
            0 <= k < a.len() && k < b.len() && #[trigger] a[k] < b[k] && forall|i: int|
                0 <= i < k ==> #[trigger] a[i] == b[i] {
            let k = choose|k: int|
                0 <= k < a.len() && k < b.len() && #[trigger] a[k] < b[k] && forall|i: int|
                    0 <= i < k ==> #[trigger] a[i] == b[i];
            assert(k > 0);
            assert forall|i: int| 0 <= i < k - 1 implies #[trigger] a1[i] == b1[i] by {
                assert(a[i + 1] == b[i + 1]);
            }
            assert(a1[k - 1] < b1[k - 1]);
        }
    } else if a.len() > 0 && b.len() > 0 {
        if a[0] < b[0] {
            assert(0 <= 0 < a.len() && a[0] < b[0]);
        }
    }
}

/// Of texts that stand in order each comes before those that stand behind it.
pub proof fn lemma_in_order(s: Seq<Seq<char>>)
    requires
        in_order(s),
    ensures
        forall|i: int, j: int| 0 <= i < j < s.len() ==> text_le(#[trigger] s[i], #[trigger] s[j]),
{
}

} // verus!
