use vstd::prelude::*;

use crate::card::{
    field_starts_at, field_value_at, lemma_quoted_field_unique, next_quote, quoted_field_at,
    skip_spaces,
};
use crate::config::{item_set, sorted_unique, strictly_sorted};
use crate::fingerprint::{hash_string, md5_hex};
use crate::text::{chars_of, is_space, is_space_char, occurs_at_exec, slice_chars, string_of};

verus! {

pub open spec fn import_keyword() -> Seq<char> {
    seq!['#', 'i', 'm', 'p', 'o', 'r', 't']
}

/// Position `i` begins a line.
pub open spec fn line_start(s: Seq<char>, i: int) -> bool {
    i == 0 || (0 < i <= s.len() && s[i - 1] == '\n')
}

/// A line that begins with `#import`, optional white space and a quoted path.
pub open spec fn import_at(s: Seq<char>, i: int) -> bool {
    line_start(s, i) && field_starts_at(s, import_keyword(), i)
}

/// Where the white space that starts at `j` ends.
pub open spec fn spaces_end(s: Seq<char>, j: int) -> int
    decreases s.len() - j,
{
    if 0 <= j < s.len() && is_space(s[j]) {
        spaces_end(s, j + 1)
    } else {
        j
    }
}

/// Where the import that starts at `i` ends, with the white space after it.
pub open spec fn import_end(s: Seq<char>, i: int) -> int {
    let (k, m) = choose|k: int, m: int| quoted_field_at(s, import_keyword(), i, k, m);
    spaces_end(s, m + 1)
}

/// The paths of the imports from position `p` on, each search going on where
/// the previous import ended.
pub open spec fn imports_from(s: Seq<char>, p: int) -> Seq<Seq<char>>
    decreases s.len() - p,
{
    if 0 <= p < s.len() {
        if import_at(s, p) && p < import_end(s, p) <= s.len() {
            seq![field_value_at(s, import_keyword(), p)] + imports_from(s, import_end(s, p))
        } else {
            imports_from(s, p + 1)
        }
    } else {
        Seq::empty()
    }
}

fn skip_trailing(s: &Vec<char>, j: usize) -> (r: usize)
    requires
        j <= s.len(),
    ensures
        r as int == spaces_end(s@, j as int),
        j <= r <= s.len(),
    decreases s.len() - j,
{
    if j < s.len() && is_space_char(s[j]) {
        skip_trailing(s, j + 1)
    } else {
        j
    }
}

/// The paths that the `#import "..."` lines of a document name, in order.
pub fn typst_import_paths(content: &str) -> (r: Vec<String>)
    ensures
        r.len() == imports_from(content@, 0).len(),
        forall|k: int| 0 <= k < r.len() ==> #[trigger] r[k]@ == imports_from(content@, 0)[k],
{
    let s = chars_of(content);
    let kw = vec!['#', 'i', 'm', 'p', 'o', 'r', 't'];
    let n = s.len();
    let mut out: Vec<String> = Vec::new();
    let ghost mut outs: Seq<Seq<char>> = Seq::empty();
    let mut p: usize = 0;
    while p < n
        invariant
            p <= n == s.len(),
            s@ == content@,
            kw@ == import_keyword(),
            out.len() == outs.len(),
            forall|k: int| 0 <= k < out.len() ==> #[trigger] out[k]@ == outs[k],
            outs + imports_from(s@, p as int) == imports_from(s@, 0),
        decreases n - p,
    {
        let at_line = p == 0 || s[p - 1] == '\n';
        let mut next = p + 1;
        if at_line && occurs_at_exec(&s, p, &kw) {
            let k = skip_spaces(&s, p + kw.len());
            if k < n && s[k] == '"' {
                let m = next_quote(&s, k + 1);
                if m < n && m > k + 1 {
                    let end = skip_trailing(&s, m + 1);
                    proof {
                        assert(quoted_field_at(s@, kw@, p as int, k as int, m as int));
                        let (k2, m2) = choose|k2: int, m2: int|
                            quoted_field_at(s@, kw@, p as int, k2, m2);
                        lemma_quoted_field_unique(
                            s@,
                            kw@,
                            p as int,
                            k as int,
                            m as int,
                            k2,
                            m2,
                        );
                        assert(import_at(s@, p as int));
                        assert(import_end(s@, p as int) == end);
                    }
                    let v = slice_chars(&s, k + 1, m);
                    let path = string_of(&v);
                    proof {
                        let ghost old_outs = outs;
                        outs = outs.push(path@);
                        assert(outs + imports_from(s@, end as int) =~= old_outs + imports_from(
                            s@,
                            p as int,
                        ));
                    }
                    out.push(path);
                    next = end;
                } else {
                    proof {
                        assert(!field_starts_at(s@, kw@, p as int)) by {
                            if exists|k2: int, m2: int| quoted_field_at(s@, kw@, p as int, k2, m2) {
                                let (k2, m2) = choose|k2: int, m2: int|
                                    quoted_field_at(s@, kw@, p as int, k2, m2);
                                assert(!is_space('"'));
                                if k2 < k {
                                    assert(is_space(s@[k2]));
                                }
                                if k < k2 {
                                    assert(is_space(s@[k as int]));
                                }
                                if m2 < m {
                                    assert(s@[m2] != '"');
                                }
                                if m < m2 {
                                    assert(s@[m as int] != '"');
                                }
                            }
                        }
                    }
                }
            } else {
                proof {
                    assert(!field_starts_at(s@, kw@, p as int)) by {
                        if exists|k2: int, m2: int| quoted_field_at(s@, kw@, p as int, k2, m2) {
                            let (k2, m2) = choose|k2: int, m2: int|
                                quoted_field_at(s@, kw@, p as int, k2, m2);
                            assert(!is_space('"'));
                            if k2 < k {
                                assert(is_space(s@[k2]));
                            }
                            if k < k2 {
                                assert(is_space(s@[k as int]));
                            }
                        }
                    }
                }
            }
        }
        p = next;
    }
    assert(outs + imports_from(s@, p as int) =~= outs);
    out
}

/// The template's text followed, for each imported file, by a newline and
/// that file's text.
pub open spec fn with_imports(content: Seq<char>, imported: Seq<String>) -> Seq<char>
    decreases imported.len(),
{
    if imported.len() == 0 {
        content
    } else {
        with_imports(content, imported.drop_last()) + seq!['\n'] + imported.last()@
    }
}

/// The hash of the shared template with the files it imports, read in order.
pub fn get_ankiconf_hash(content: &str, imported: &Vec<String>) -> (r: String)
    ensures
        r@ == md5_hex(with_imports(content@, imported@)),
{
    let mut all = String::from_str(content);
    let mut i: usize = 0;
    while i < imported.len()
        invariant
            i <= imported.len(),
            all@ == with_imports(content@, imported@.subrange(0, i as int)),
        decreases imported.len() - i,
    {
        all.append("\n");
        all.append(imported[i].as_str());
        proof {
            assert(imported@.subrange(0, i + 1).drop_last() =~= imported@.subrange(0, i as int));
            assert("\n"@ == seq!['\n']) by {
                reveal_strlit("\n");
            }
        }
        i = i + 1;
    }
    assert(imported@.subrange(0, imported.len() as int) =~= imported@);
    hash_string(all.as_str())
}

/// `p` without its leading slashes: imports are resolved from the root.
pub open spec fn without_leading_slashes(p: Seq<char>) -> Seq<char>
    decreases p.len(),
{
    if p.len() > 0 && p[0] == '/' {
        without_leading_slashes(p.drop_first())
    } else {
        p
    }
}

pub fn strip_leading_slashes(p: &str) -> (r: String)
    ensures
        r@ == without_leading_slashes(p@),
{
    let v = chars_of(p);
    let mut a: usize = 0;
    assert(v@.subrange(0, v.len() as int) =~= v@);
    while a < v.len() && v[a] == '/'
        invariant
            a <= v.len(),
            v@ == p@,
            without_leading_slashes(v@.subrange(a as int, v.len() as int))
                == without_leading_slashes(p@),
        decreases v.len() - a,
    {
        assert(v@.subrange(a as int, v.len() as int).drop_first() =~= v@.subrange(
            a + 1,
            v.len() as int,
        ));
        a = a + 1;
    }
    string_of(&slice_chars(&v, a, v.len()))
}

pub open spec fn views(v: Seq<String>) -> Seq<Seq<char>> {
    Seq::new(v.len(), |k: int| v[k]@)
}

/// The walk over a template's imports: the import paths still to look at,
/// in order, and the files found so far, each once.
pub struct ImportWalk {
    pending: Vec<String>,
    next: usize,
    found: Vec<String>,
}

impl ImportWalk {
    pub closed spec fn wf(&self) -> bool {
        self.next <= self.pending.len()
    }

    /// The import paths met so far, in order.
    pub closed spec fn pending(&self) -> Seq<Seq<char>> {
        views(self.pending@)
    }

    /// How many of them were looked at.
    pub closed spec fn position(&self) -> int {
        self.next as int
    }

    /// The files found, in the order they were found.
    pub closed spec fn found(&self) -> Seq<Seq<char>> {
        views(self.found@)
    }

    /// A walk that starts with the imports of the template.
    pub fn new(imports: Vec<String>) -> (r: Self)
        ensures
            r.wf(),
            r.pending() == views(imports@),
            r.position() == 0,
            r.found() == Seq::<Seq<char>>::empty(),
    {
        let r = ImportWalk { pending: imports, next: 0, found: Vec::new() };
        assert(views(r.found@) =~= Seq::<Seq<char>>::empty());
        r
    }

    /// The next import path to look at, without its leading slashes; `None`
    /// once every path met was looked at.
    pub fn next_path(&mut self) -> (r: Option<String>)
        requires
            old(self).wf(),
        ensures
            final(self).wf(),
            final(self).pending() == old(self).pending(),
            final(self).found() == old(self).found(),
            old(self).position() < old(self).pending().len() ==> r is Some
                && r->0@ == without_leading_slashes(old(self).pending()[old(self).position()])
                && final(self).position() == old(self).position() + 1,
            old(self).position() >= old(self).pending().len() ==> r is None
                && final(self).position() == old(self).position(),
    {
        if self.next < self.pending.len() {
            let p = strip_leading_slashes(self.pending[self.next].as_str());
            self.next = self.next + 1;
            Some(p)
        } else {
            None
        }
    }

    /// Whether file `path` was not found before, so that it is to be read.
    pub fn is_new(&self, path: &String) -> (r: bool)
        ensures
            r == !self.found().contains(path@),
    {
        let mut k: usize = 0;
        while k < self.found.len()
            invariant
                k <= self.found.len(),
                forall|t: int| 0 <= t < k ==> self.found@[t]@ != path@,
            decreases self.found.len() - k,
        {
            if self.found[k] == *path {
                assert(self.found()[k as int] == path@);
                return false;
            }
            k = k + 1;
        }
        assert(!self.found().contains(path@)) by {
            if self.found().contains(path@) {
                let t = choose|t: int| 0 <= t < self.found().len() && self.found()[t] == path@;
                assert(self.found@[t]@ == path@);
            }
        }
        true
    }

    /// Records a new file and the imports it holds, which are looked at after
    /// those already met.
    pub fn record(&mut self, path: String, imports: Vec<String>)
        requires
            old(self).wf(),
        ensures
            final(self).wf(),
            final(self).position() == old(self).position(),
            final(self).found() == old(self).found().push(path@),
            final(self).pending() == old(self).pending() + views(imports@),
    {
        let ghost pending_before = views(self.pending@);
        let ghost found_before = views(self.found@);
        let ghost pv = path@;
        self.found.push(path);
        assert(views(self.found@) =~= found_before.push(pv));
        let mut k: usize = 0;
        while k < imports.len()
            invariant
                k <= imports.len(),
                old(self).next <= old(self).pending.len(),
                self.next == old(self).next,
                self.pending.len() >= old(self).pending.len(),
                views(self.pending@) == pending_before + views(imports@.subrange(0, k as int)),
                views(self.found@) == found_before.push(pv),
                pending_before == views(old(self).pending@),
                found_before == views(old(self).found@),
            decreases imports.len() - k,
        {
            let c = imports[k].clone();
            let ghost before = views(self.pending@);
            self.pending.push(c);
            assert(views(self.pending@) =~= before.push(imports@[k as int]@));
            assert(imports@.subrange(0, k + 1) =~= imports@.subrange(0, k as int).push(imports@[k as int]));
            assert(views(imports@.subrange(0, k + 1)) =~= views(imports@.subrange(0, k as int)).push(imports@[k as int]@));
            k = k + 1;
            assert(views(self.pending@) =~= pending_before + views(imports@.subrange(0, k as int)));
        }
        assert(imports@.subrange(0, imports.len() as int) =~= imports@);
    }

    /// The files found, each once, in code-point order.
    pub fn finish(&self) -> (r: Vec<String>)
        ensures
            strictly_sorted(views(r@)),
            item_set(views(r@)) == item_set(self.found()),
    {
        let r = sorted_unique(&self.found);
        assert(views(r@) =~= Seq::new(r.len() as nat, |k: int| r@[k]@));
        assert forall|x: Seq<char>|
            item_set(self.found()).contains(x) == crate::config::pattern_set(self.found@).contains(
                x,
            ) by {
            if item_set(self.found()).contains(x) {
                let i = choose|i: int| 0 <= i < self.found().len() && self.found()[i] == x;
                assert(self.found@[i]@ == x);
            }
            if crate::config::pattern_set(self.found@).contains(x) {
                let i = choose|i: int| 0 <= i < self.found@.len() && self.found@[i]@ == x;
                assert(self.found()[i] == x);
            }
        }
        assert(item_set(self.found()) =~= crate::config::pattern_set(self.found@));
        r
    }
}

} // verus!
