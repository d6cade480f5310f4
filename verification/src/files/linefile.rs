//! Files with one entry per line, such as `package.mask` or `use.mask`: a later entry of a
//! value, also in a file that inherits, replaces an earlier one.
use crate::error::Error;
use crate::files::entry::{Entry, FileEntry, Operation, Precedence, entry_parts};
use crate::text::{
    append_str, content_lines, decimal, split_lines, str_eq, strip_comment, strip_line_comment,
    texts, usize_string,
};
use vstd::prelude::*;

verus! {

/// Model of an entry: its precedence, operation and value.
pub type EntryModel<V> = (Precedence, Operation, V);

/// The lines that hold an entry: each line without its comment and trimmed, without the
/// lines that are then empty.
pub open spec fn code_lines(lines: Seq<Seq<char>>) -> Seq<Seq<char>>
    decreases lines.len(),
{
    if lines.len() == 0 {
        Seq::empty()
    } else {
        let rest = code_lines(lines.drop_last());
        let c = strip_comment(lines.last());
        if c.len() == 0 {
            rest
        } else {
            rest.push(c)
        }
    }
}

/// The number, counted from 1, of the first of `lines` whose entry is invalid, if any.
pub open spec fn first_bad_line<T: FileEntry>(lines: Seq<Seq<char>>) -> Option<int>
    decreases lines.len(),
{
    if lines.len() == 0 {
        None
    } else {
        match first_bad_line::<T>(lines.drop_last()) {
            Some(k) => Some(k),
            None => {
                let c = strip_comment(lines.last());
                if c.len() > 0 && !T::accepts_entry(entry_parts(c).1) {
                    Some(lines.len() as int)
                } else {
                    None
                }
            },
        }
    }
}

/// `es` are the entries that the written entries `ws` give with precedence `prec`.
pub open spec fn read_entries<T: FileEntry>(es: Seq<EntryModel<T::V>>, ws: Seq<Seq<char>>, prec: Precedence) -> bool {
    &&& es.len() == ws.len()
    &&& forall|i: int|
        0 <= i < ws.len() ==> {
            &&& (#[trigger] es[i]).0 == prec
            &&& es[i].1 == entry_parts(ws[i]).0
            &&& T::reads_as(entry_parts(ws[i]).1, es[i].2)
        }
}

/// The keys of the values of entries.
pub open spec fn entry_keys<T: FileEntry>(es: Seq<EntryModel<T::V>>) -> Seq<Seq<char>> {
    es.map_values(|e: EntryModel<T::V>| T::key(e.2))
}

/// The entries of `es` that no later entry of the same value replaces, in their order.
pub open spec fn keep_last<T: FileEntry>(es: Seq<EntryModel<T::V>>) -> Seq<EntryModel<T::V>>
    decreases es.len(),
{
    if es.len() == 0 {
        es
    } else if entry_keys::<T>(es.drop_first()).contains(T::key(es[0].2)) {
        keep_last::<T>(es.drop_first())
    } else {
        seq![es[0]] + keep_last::<T>(es.drop_first())
    }
}

/// No two entries have the same value.
pub open spec fn distinct_keys<T: FileEntry>(es: Seq<EntryModel<T::V>>) -> bool {
    forall|i: int, j: int|
        0 <= i < j < es.len() ==> T::key((#[trigger] es[i]).2) != T::key((#[trigger] es[j]).2)
}

/// The keys of [`keep_last`] are those of its input.
pub proof fn lemma_keep_last_keys<T: FileEntry>(es: Seq<EntryModel<T::V>>, k: Seq<char>)
    ensures
        entry_keys::<T>(keep_last::<T>(es)).contains(k) <==> entry_keys::<T>(es).contains(k),
    decreases es.len(),
{
    if es.len() > 0 {
        let rest = es.drop_first();
        lemma_keep_last_keys::<T>(rest, k);
        assert(entry_keys::<T>(es) =~= seq![T::key(es[0].2)] + entry_keys::<T>(rest));
        if entry_keys::<T>(rest).contains(T::key(es[0].2)) {
        } else {
            let kl = keep_last::<T>(rest);
            assert(entry_keys::<T>(seq![es[0]] + kl) =~= seq![T::key(es[0].2)] + entry_keys::<T>(kl));
            if entry_keys::<T>(es).contains(k) && k != T::key(es[0].2) {
                let i = choose|i: int| 0 <= i < entry_keys::<T>(es).len() && entry_keys::<T>(es)[i] == k;
                assert(entry_keys::<T>(rest)[i - 1] == k);
            }
            if entry_keys::<T>(seq![es[0]] + kl).contains(k) && k != T::key(es[0].2) {
                let i = choose|i: int|
                    0 <= i < entry_keys::<T>(seq![es[0]] + kl).len() && entry_keys::<T>(seq![es[0]] + kl)[i] == k;
                assert(entry_keys::<T>(kl)[i - 1] == k);
            }
            if entry_keys::<T>(rest).contains(k) {
                let i = choose|i: int| 0 <= i < entry_keys::<T>(rest).len() && entry_keys::<T>(rest)[i] == k;
                assert(entry_keys::<T>(es)[i + 1] == k);
            }
            if entry_keys::<T>(kl).contains(k) {
                let i = choose|i: int| 0 <= i < entry_keys::<T>(kl).len() && entry_keys::<T>(kl)[i] == k;
                assert(entry_keys::<T>(seq![es[0]] + kl)[i + 1] == k);
            }
            assert(entry_keys::<T>(es)[0] == T::key(es[0].2));
            assert(entry_keys::<T>(seq![es[0]] + kl)[0] == T::key(es[0].2));
        }
        if entry_keys::<T>(rest).contains(T::key(es[0].2)) {
            if entry_keys::<T>(es).contains(k) {
                let i = choose|i: int| 0 <= i < entry_keys::<T>(es).len() && entry_keys::<T>(es)[i] == k;
                if i > 0 {
                    assert(entry_keys::<T>(rest)[i - 1] == k);
                }
            }
            if entry_keys::<T>(rest).contains(k) {
                let i = choose|i: int| 0 <= i < entry_keys::<T>(rest).len() && entry_keys::<T>(rest)[i] == k;
                assert(entry_keys::<T>(es)[i + 1] == k);
            }
        }
    }
}

/// Law: after inheriting, no two entries have the same value.
pub proof fn lemma_keep_last_distinct<T: FileEntry>(es: Seq<EntryModel<T::V>>)
    ensures
        distinct_keys::<T>(keep_last::<T>(es)),
    decreases es.len(),
{
    if es.len() > 0 {
        let rest = es.drop_first();
        lemma_keep_last_distinct::<T>(rest);
        if !entry_keys::<T>(rest).contains(T::key(es[0].2)) {
            let kl = keep_last::<T>(rest);
            let r = seq![es[0]] + kl;
            assert forall|i: int, j: int| 0 <= i < j < r.len() implies T::key((#[trigger] r[i]).2) != T::key(
                (#[trigger] r[j]).2,
            ) by {
                if i == 0 {
                    lemma_keep_last_keys::<T>(rest, T::key(es[0].2));
                    assert(entry_keys::<T>(kl)[j - 1] == T::key(r[j].2));
                } else {
                    assert(r[i] == kl[i - 1] && r[j] == kl[j - 1]);
                }
            }
        }
    }
}

/// Law: an entry is kept exactly where no later entry has its value.
pub proof fn lemma_keep_last_members<T: FileEntry>(es: Seq<EntryModel<T::V>>, i: int)
    requires
        0 <= i < es.len(),
    ensures
        keep_last::<T>(es).contains(es[i]) <== !entry_keys::<T>(es.skip(i + 1)).contains(T::key(es[i].2)),
    decreases es.len(),
{
    let rest = es.drop_first();
    if i == 0 {
        assert(rest =~= es.skip(1));
        if !entry_keys::<T>(rest).contains(T::key(es[0].2)) {
            assert((seq![es[0]] + keep_last::<T>(rest))[0] == es[0]);
        }
    } else {
        assert(rest.skip(i) =~= es.skip(i + 1));
        assert(rest[i - 1] == es[i]);
        lemma_keep_last_members::<T>(rest, i - 1);
        if keep_last::<T>(rest).contains(es[i]) && entry_keys::<T>(rest).contains(T::key(es[0].2)) {
        } else if keep_last::<T>(rest).contains(es[i]) {
            let kl = keep_last::<T>(rest);
            let j = choose|j: int| 0 <= j < kl.len() && kl[j] == es[i];
            assert((seq![es[0]] + kl)[j + 1] == es[i]);
        }
    }
}

/// The entries of a line-based file, in the order they take effect.
///
/// The entries are held in a `Vec` in file order rather than in a hash set: the order in
/// which a hash set is walked is not specified, while the order of the entries decides
/// which of them takes effect. Entries of the same value are found by their key (for atoms,
/// the text with the version in canonical form), so that equal values count as one.
#[derive(Debug)]
pub struct LineEntries<T: FileEntry> {
    entries: Vec<Entry<T>>,
}

impl<T: FileEntry> View for LineEntries<T> {
    type V = Seq<EntryModel<T::V>>;

    closed spec fn view(&self) -> Seq<EntryModel<T::V>> {
        self.entries@.map_values(|e: Entry<T>| e@)
    }
}

impl<T: FileEntry> LineEntries<T> {
    /// No entries.
    pub fn new() -> (r: Self)
        ensures
            r@ == Seq::<EntryModel<T::V>>::empty(),
    {
        let r = LineEntries { entries: Vec::new() };
        assert(r@ =~= Seq::<EntryModel<T::V>>::empty());
        r
    }

    /// Reads the entries of a file with precedence `order`: one per line, `#` starts a
    /// comment, empty lines are skipped. Fails at the first invalid entry, naming its line.
    pub fn from_string(content: &str, order: Precedence) -> (r: Result<Self, Error>)
        ensures
            match first_bad_line::<T>(content_lines(content@)) {
                Some(n) => r matches Err(e) && e.text() == "error in line "@ + decimal(n as nat) + ": "@
                    + strip_comment(content_lines(content@)[n - 1]),
                None => r matches Ok(f) && read_entries::<T>(f@, code_lines(content_lines(content@)), order),
            },
    {
        let lines = split_lines(content);
        let ghost ls = texts(lines@);
        let mut entries: Vec<Entry<T>> = Vec::new();
        let mut i: usize = 0;
        while i < lines.len()
            invariant
                0 <= i <= lines@.len(),
                ls == texts(lines@),
                ls == content_lines(content@),
                first_bad_line::<T>(ls.subrange(0, i as int)) is None,
                read_entries::<T>(
                    entries@.map_values(|e: Entry<T>| e@),
                    code_lines(ls.subrange(0, i as int)),
                    order,
                ),
            decreases lines.len() - i,
        {
            let ghost sub = ls.subrange(0, i + 1);
            assert(sub.drop_last() =~= ls.subrange(0, i as int));
            assert(sub.last() == lines@[i as int]@);
            let line = strip_line_comment(lines[i].as_str());
            if !line.as_str().is_empty() {
                match Entry::<T>::from_str(line.as_str(), order) {
                    Ok(e) => {
                        let ghost before = entries@.map_values(|e: Entry<T>| e@);
                        entries.push(e);
                        proof {
                            assert(entries@.map_values(|e: Entry<T>| e@) =~= before.push(e@));
                            let ws = code_lines(sub);
                            assert(ws =~= code_lines(ls.subrange(0, i as int)).push(line@));
                            let es = entries@.map_values(|e: Entry<T>| e@);
                            assert forall|k: int| 0 <= k < ws.len() implies {
                                &&& (#[trigger] es[k]).0 == order
                                &&& es[k].1 == entry_parts(ws[k]).0
                                &&& T::reads_as(entry_parts(ws[k]).1, es[k].2)
                            } by {
                                if k < ws.len() - 1 {
                                    assert(es[k] == before[k]);
                                    assert(ws[k] == code_lines(ls.subrange(0, i as int))[k]);
                                }
                            }
                        }
                    },
                    Err(_) => {
                        let mut m = String::new();
                        append_str(&mut m, "error in line ");
                        let num = usize_string(i + 1);
                        append_str(&mut m, num.as_str());
                        append_str(&mut m, ": ");
                        append_str(&mut m, line.as_str());
                        proof {
                            assert(first_bad_line::<T>(sub) == Some(i + 1));
                            lemma_first_bad_prefix::<T>(ls, i + 1);
                        }
                        return Err(Error::from_string(m));
                    },
                }
            } else {
                assert(code_lines(sub) =~= code_lines(ls.subrange(0, i as int)));
            }
            i += 1;
        }
        assert(ls.subrange(0, i as int) =~= ls);
        Ok(LineEntries { entries })
    }

    /// Returns the entries.
    pub fn into_iter(self) -> (r: Vec<Entry<T>>)
        ensures
            r@.map_values(|e: Entry<T>| e@) == self@,
    {
        self.entries
    }

    /// Returns the values of the entries.
    pub fn into_inner(self) -> (r: Vec<T>)
        ensures
            r@.map_values(|x: T| x@) == self@.map_values(|e: EntryModel<T::V>| e.2),
    {
        let ghost all = self@;
        let mut entries = self.entries;
        let mut out: Vec<T> = Vec::new();
        let ghost n = entries@.len();
        // Taken from the back, then put in order.
        let mut rev: Vec<T> = Vec::new();
        while entries.len() > 0
            invariant
                entries@.len() + rev@.len() == n,
                all.len() == n,
                forall|k: int| 0 <= k < entries@.len() ==> (#[trigger] entries@[k])@ == all[k],
                forall|k: int| 0 <= k < rev@.len() ==> (#[trigger] rev@[k])@ == all[n - 1 - k].2,
            decreases entries@.len(),
        {
            let e = entries.pop().unwrap();
            rev.push(e.into_inner());
        }
        while rev.len() > 0
            invariant
                out@.len() + rev@.len() == n,
                all.len() == n,
                forall|k: int| 0 <= k < rev@.len() ==> (#[trigger] rev@[k])@ == all[n - 1 - k].2,
                forall|k: int| 0 <= k < out@.len() ==> (#[trigger] out@[k])@ == all[k].2,
            decreases rev@.len(),
        {
            let x = rev.pop().unwrap();
            out.push(x);
        }
        assert(out@.map_values(|x: T| x@) =~= all.map_values(|e: EntryModel<T::V>| e.2));
        out
    }

    /// Inherits the entries of `parent`: the entries of the parent, then those of this
    /// file, of which an entry is kept only where no later one has the same value.
    pub fn inherit_from(&mut self, parent: &LineEntries<T>)
        ensures
            final(self)@ == keep_last::<T>(parent@ + old(self)@),
    {
        let ghost all = parent@ + self@;
        let mut c: Vec<Entry<T>> = Vec::new();
        let mut i: usize = 0;
        while i < parent.entries.len()
            invariant
                0 <= i <= parent.entries@.len(),
                c@.map_values(|e: Entry<T>| e@) =~= parent@.subrange(0, i as int),
            decreases parent.entries.len() - i,
        {
            let ghost before = c@.map_values(|e: Entry<T>| e@);
            c.push(parent.entries[i].copy());
            assert(c@.map_values(|e: Entry<T>| e@) =~= before.push(parent@[i as int]));
            assert(parent@.subrange(0, i + 1) =~= parent@.subrange(0, i as int).push(parent@[i as int]));
            i += 1;
        }
        let mut j: usize = 0;
        while j < self.entries.len()
            invariant
                0 <= j <= self.entries@.len(),
                c@.map_values(|e: Entry<T>| e@) =~= parent@ + self@.subrange(0, j as int),
            decreases self.entries.len() - j,
        {
            let ghost before = c@.map_values(|e: Entry<T>| e@);
            c.push(self.entries[j].copy());
            assert(c@.map_values(|e: Entry<T>| e@) =~= before.push(self@[j as int]));
            assert(parent@ + self@.subrange(0, j + 1) =~= (parent@ + self@.subrange(0, j as int)).push(
                self@[j as int],
            ));
            j += 1;
        }
        assert(self@.subrange(0, j as int) =~= self@);
        let kept = keep_last_of(c);
        self.entries = kept;
    }

    /// Returns this file after inheriting the entries of `parent`.
    pub fn inherit(self, parent: &LineEntries<T>) -> (r: Self)
        ensures
            r@ == keep_last::<T>(parent@ + self@),
    {
        let mut s = self;
        s.inherit_from(parent);
        s
    }
}

/// The first invalid line of a prefix is the first invalid line of the whole.
proof fn lemma_first_bad_prefix<T: FileEntry>(ls: Seq<Seq<char>>, n: int)
    requires
        0 < n <= ls.len(),
        first_bad_line::<T>(ls.subrange(0, n)) == Some(n),
    ensures
        first_bad_line::<T>(ls) == Some(n),
        strip_comment(ls[n - 1]) == strip_comment(ls.subrange(0, n).last()),
    decreases ls.len(),
{
    if ls.len() > n {
        assert(ls.drop_last().subrange(0, n) =~= ls.subrange(0, n));
        lemma_first_bad_prefix::<T>(ls.drop_last(), n);
    } else {
        assert(ls.subrange(0, n) =~= ls);
    }
}

/// Keeps the entries of `c` that no later entry of the same value replaces.
fn keep_last_of<T: FileEntry>(c: Vec<Entry<T>>) -> (r: Vec<Entry<T>>)
    ensures
        r@.map_values(|e: Entry<T>| e@) == keep_last::<T>(c@.map_values(|e: Entry<T>| e@)),
{
    let ghost all = c@.map_values(|e: Entry<T>| e@);
    let mut c = c;
    let n = c.len();
    // Entries kept so far, from the back, with their keys.
    let mut kept_rev: Vec<Entry<T>> = Vec::new();
    let mut keys: Vec<String> = Vec::new();
    let mut i: usize = n;
    assert(all.skip(n as int) =~= Seq::<EntryModel<T::V>>::empty());
    while i > 0
        invariant
            0 <= i <= n == all.len(),
            c@.len() == i,
            forall|k: int| 0 <= k < i ==> (#[trigger] c@[k])@ == all[k],
            kept_rev@.map_values(|e: Entry<T>| e@).reverse() == keep_last::<T>(all.skip(i as int)),
            keys@.len() == kept_rev@.len(),
            forall|k: int| 0 <= k < keys@.len() ==> (#[trigger] keys@[k])@ == T::key(kept_rev@[k]@.2),
        decreases i,
    {
        let e = c.pop().unwrap();
        let key = e.key();
        let ghost s = all.skip(i - 1);
        assert(s.drop_first() =~= all.skip(i as int));
        assert(s[0] == e@);
        let mut found = false;
        let mut k: usize = 0;
        while k < keys.len()
            invariant
                0 <= k <= keys@.len(),
                !found ==> forall|m: int| 0 <= m < k ==> (#[trigger] keys@[m])@ != key@,
                found ==> exists|m: int| 0 <= m < keys@.len() && (#[trigger] keys@[m])@ == key@,
            decreases keys.len() - k,
        {
            if str_eq(keys[k].as_str(), key.as_str()) {
                found = true;
            }
            k += 1;
        }
        let ghost kr = kept_rev@.map_values(|e: Entry<T>| e@);
        proof {
            lemma_keep_last_keys::<T>(all.skip(i as int), T::key(e@.2));
            let kl = keep_last::<T>(all.skip(i as int));
            assert(kl =~= kr.reverse());
            if found {
                let m = choose|m: int| 0 <= m < keys@.len() && (#[trigger] keys@[m])@ == key@;
                assert(entry_keys::<T>(kl)[kr.len() - 1 - m] == key@);
            } else {
                if entry_keys::<T>(kl).contains(key@) {
                    let m = choose|m: int| 0 <= m < entry_keys::<T>(kl).len() && entry_keys::<T>(kl)[m] == key@;
                    assert(keys@[kr.len() - 1 - m]@ == key@);
                }
            }
        }
        if !found {
            kept_rev.push(e);
            keys.push(key);
            proof {
                let nk = kept_rev@.map_values(|e: Entry<T>| e@);
                assert(nk =~= kr.push(s[0]));
                assert(nk.reverse() =~= seq![s[0]] + kr.reverse());
            }
        }
        i -= 1;
    }
    assert(all.skip(0) =~= all);
    let mut out: Vec<Entry<T>> = Vec::new();
    let ghost kr = kept_rev@.map_values(|e: Entry<T>| e@);
    let ghost m = kr.len();
    while kept_rev.len() > 0
        invariant
            out@.len() + kept_rev@.len() == m,
            forall|k: int| 0 <= k < kept_rev@.len() ==> (#[trigger] kept_rev@[k])@ == kr[k],
            forall|k: int| 0 <= k < out@.len() ==> (#[trigger] out@[k])@ == kr[m - 1 - k],
        decreases kept_rev@.len(),
    {
        let e = kept_rev.pop().unwrap();
        out.push(e);
    }
    assert(out@.map_values(|e: Entry<T>| e@) =~= kr.reverse());
    out
}

} // verus!
