use vstd::prelude::*;

use crate::card::{deck_field, field_value, id_field, lemma_field_after_newline};
use crate::text::{
    chars_of, is_space, occurs_at, occurs_at_exec, string_of, trim, trim_chars, trim_end, trim_start,
};

verus! {

pub open spec fn card_keyword() -> Seq<char> {
    seq!['#', 'c', 'a', 'r', 'd', '(']
}

pub open spec fn custom_card_keyword() -> Seq<char> {
    seq!['#', 'c', 'u', 's', 't', 'o', 'm', '-', 'c', 'a', 'r', 'd', '(']
}

pub open spec fn slashes() -> Seq<char> {
    seq!['/', '/']
}

pub open spec fn spaced_slashes() -> Seq<char> {
    seq!['/', '/', ' ']
}

pub open spec fn start_word() -> Seq<char> {
    seq!['s', 't', 'a', 'r', 't']
}

/// `c` is the lowercase ASCII letter `l`, in either case.
pub open spec fn same_letter(c: char, l: char) -> bool {
    c == l || (c as u32) + 32 == (l as u32)
}

/// `s` holds the lowercase word `w` at `i`, in any letter case.
pub open spec fn word_at_ci(s: Seq<char>, i: int, w: Seq<char>) -> bool {
    0 <= i && i + w.len() <= s.len() && forall|t: int|
        0 <= t < w.len() ==> #[trigger] same_letter(s[i + t], w[t])
}

/// The length of the prelude marker at `i`: `//`, an optional space, then
/// `start` in any letter case; `0` where none stands.
pub open spec fn marker_len(s: Seq<char>, i: int) -> int {
    if occurs_at(s, i, slashes()) && word_at_ci(s, i + 2, start_word()) {
        7
    } else if occurs_at(s, i, spaced_slashes()) && word_at_ci(s, i + 3, start_word()) {
        8
    } else {
        0
    }
}

/// Where the scanner stands between two steps.
pub struct ScanState {
    pub inside: bool,
    pub depth: int,
    pub card: Seq<char>,
    pub prelude: Seq<char>,
    pub started: bool,
    pub out: Seq<Seq<char>>,
}

pub open spec fn scan_start() -> ScanState {
    ScanState {
        inside: false,
        depth: 0,
        card: Seq::empty(),
        prelude: Seq::empty(),
        started: false,
        out: Seq::empty(),
    }
}

/// What a closed card yields: the prelude gathered so far, a newline and the
/// card's own text, each trimmed.
pub open spec fn emitted(prelude: Seq<char>, card: Seq<char>) -> Seq<char> {
    trim(prelude) + seq!['\n'] + trim(card)
}

/// The prelude after character `c` is seen outside a card; a newline right
/// after a newline is dropped.
pub open spec fn prelude_after(prelude: Seq<char>, c: char) -> Seq<char> {
    if c == '\n' && prelude.len() > 0 && prelude.last() == '\n' {
        prelude
    } else {
        prelude.push(c)
    }
}

pub open spec fn open_card(st: ScanState, kw: Seq<char>) -> ScanState {
    ScanState { inside: true, depth: 1, card: kw, ..st }
}

/// One step of the scanner at position `i`: the next position and state.
pub open spec fn step(s: Seq<char>, i: int, st: ScanState) -> (int, ScanState) {
    if !st.inside {
        if occurs_at(s, i, card_keyword()) {
            (i + card_keyword().len(), open_card(st, card_keyword()))
        } else if occurs_at(s, i, custom_card_keyword()) {
            (i + custom_card_keyword().len(), open_card(st, custom_card_keyword()))
        } else if !st.started && marker_len(s, i) > 0 {
            (i + marker_len(s, i), ScanState { started: true, ..st })
        } else if st.started {
            (i + 1, ScanState { prelude: prelude_after(st.prelude, s[i]), ..st })
        } else {
            (i + 1, st)
        }
    } else {
        let c = s[i];
        let card = st.card.push(c);
        let depth = if c == '(' {
            st.depth + 1
        } else if c == ')' {
            st.depth - 1
        } else {
            st.depth
        };
        if depth == 0 {
            (
                i + 1,
                ScanState {
                    inside: false,
                    depth: 0,
                    card: Seq::empty(),
                    out: st.out.push(emitted(st.prelude, card)),
                    ..st
                },
            )
        } else {
            (i + 1, ScanState { card, depth, ..st })
        }
    }
}

/// The state in which the scan of `s` ends when it stands at `i` in `st`.
pub open spec fn scan_from(s: Seq<char>, i: int, st: ScanState) -> ScanState
    decreases s.len() - i,
{
    if 0 <= i < s.len() {
        let (j, t) = step(s, i, st);
        if j > i {
            scan_from(s, j, t)
        } else {
            t
        }
    } else {
        st
    }
}

/// The cards of a document, in order of their end.
pub open spec fn cards_of(s: Seq<char>) -> Seq<Seq<char>> {
    scan_from(s, 0, scan_start()).out
}

fn append_chars(dst: &mut Vec<char>, src: &Vec<char>)
    ensures
        final(dst)@ == old(dst)@ + src@,
{
    let mut k: usize = 0;
    while k < src.len()
        invariant
            k <= src.len(),
            dst@ == old(dst)@ + src@.subrange(0, k as int),
        decreases src.len() - k,
    {
        dst.push(src[k]);
        k = k + 1;
        assert(dst@ =~= old(dst)@ + src@.subrange(0, k as int));
    }
    assert(src@.subrange(0, src.len() as int) =~= src@);
}

fn emit_card(prelude: &Vec<char>, card: &Vec<char>) -> (r: String)
    ensures
        r@ == emitted(prelude@, card@),
{
    let mut e = trim_chars(prelude);
    e.push('\n');
    let t = trim_chars(card);
    append_chars(&mut e, &t);
    string_of(&e)
}

/// Whether `s` holds the lowercase word `w` at `i`, in any letter case.
fn word_at_ci_exec(s: &Vec<char>, i: usize, w: &Vec<char>) -> (r: bool)
    ensures
        r == word_at_ci(s@, i as int, w@),
{
    if i > s.len() || w.len() > s.len() - i {
        return false;
    }
    let mut t: usize = 0;
    while t < w.len()
        invariant
            i + w.len() <= s.len(),
            t <= w.len(),
            forall|u: int| 0 <= u < t ==> #[trigger] same_letter(s@[i + u], w@[u]),
        decreases w.len() - t,
    {
        let c = s[i + t];
        let l = w[t];
        if !(c == l || (c as u32) as u64 + 32 == (l as u32) as u64) {
            assert(!same_letter(s@[i + t], w@[t as int]));
            return false;
        }
        t = t + 1;
    }
    true
}

/// The length of the prelude marker at `i`, or `0`.
fn marker_len_exec(s: &Vec<char>, i: usize) -> (r: usize)
    requires
        i < s.len(),
    ensures
        r == marker_len(s@, i as int),
{
    let word = vec!['s', 't', 'a', 'r', 't'];
    if occurs_at_exec(s, i, &vec!['/', '/']) && word_at_ci_exec(s, i + 2, &word) {
        7
    } else if occurs_at_exec(s, i, &vec!['/', '/', ' ']) && i + 3 <= s.len() && word_at_ci_exec(
        s,
        i + 3,
        &word,
    ) {
        8
    } else {
        0
    }
}

/// Splits a document into its cards. A card starts at `#card(` or
/// `#custom-card(` and ends where its parentheses balance; one that never
/// balances yields nothing. After a prelude marker (`//start` in any letter
/// case, with or without a space after the slashes) all text outside cards is
/// gathered as a prelude, which is put in front of every card that follows.
pub fn parse_cards_string(content: &str) -> (r: Vec<String>)
    ensures
        r.len() == cards_of(content@).len(),
        forall|k: int| 0 <= k < r.len() ==> #[trigger] r[k]@ == cards_of(content@)[k],
{
    let s = chars_of(content);
    let n = s.len();
    let kw_card = vec!['#', 'c', 'a', 'r', 'd', '('];
    let kw_custom = vec!['#', 'c', 'u', 's', 't', 'o', 'm', '-', 'c', 'a', 'r', 'd', '('];

    let mut inside = false;
    let mut depth: usize = 0;
    let mut card: Vec<char> = Vec::new();
    let mut prelude: Vec<char> = Vec::new();
    let mut started = false;
    let mut out: Vec<String> = Vec::new();
    let ghost mut outs: Seq<Seq<char>> = Seq::empty();
    let mut i: usize = 0;
    while i < n
        invariant
            i <= n == s.len(),
            s@ == content@,
            kw_card@ == card_keyword(),
            kw_custom@ == custom_card_keyword(),
            depth <= i,
            inside ==> depth >= 1,
            out.len() == outs.len(),
            forall|k: int| 0 <= k < out.len() ==> #[trigger] out[k]@ == outs[k],
            scan_from(
                s@,
                i as int,
                ScanState {
                    inside,
                    depth: depth as int,
                    card: card@,
                    prelude: prelude@,
                    started,
                    out: outs,
                },
            ) == scan_from(s@, 0, scan_start()),
        decreases n - i,
    {
        if !inside {
            if occurs_at_exec(&s, i, &kw_card) {
                inside = true;
                depth = 1;
                card = kw_card.clone();
                i = i + kw_card.len();
                continue;
            }
            if occurs_at_exec(&s, i, &kw_custom) {
                inside = true;
                depth = 1;
                card = kw_custom.clone();
                i = i + kw_custom.len();
                continue;
            }
            if !started {
                let m = marker_len_exec(&s, i);
                if m > 0 {
                    started = true;
                    i = i + m;
                    continue;
                }
            }
            let c = s[i];
            if started {
                if !(c == '\n' && prelude.len() > 0 && prelude[prelude.len() - 1] == '\n') {
                    prelude.push(c);
                }
            }
            i = i + 1;
        } else {
            let c = s[i];
            card.push(c);
            if c == '(' {
                depth = depth + 1;
            } else if c == ')' {
                depth = depth - 1;
            }
            i = i + 1;
            if depth == 0 {
                let e = emit_card(&prelude, &card);
                proof {
                    outs = outs.push(e@);
                }
                out.push(e);
                inside = false;
                card = Vec::new();
            }
        }
    }
    out
}

pub open spec fn paren_delta(ch: char) -> int {
    if ch == '(' {
        1
    } else if ch == ')' {
        -1
    } else {
        0
    }
}

/// How deep the parentheses of card text `c` stand after its first `j`
/// characters, the keyword's own parenthesis counting one.
pub open spec fn nesting(c: Seq<char>, kw_len: int, j: int) -> int
    decreases j - kw_len,
{
    if j <= kw_len {
        1
    } else {
        nesting(c, kw_len, j - 1) + paren_delta(c[j - 1])
    }
}

/// A card text: a card keyword, then text whose parentheses first balance at
/// its last character.
pub open spec fn well_formed_card(c: Seq<char>, kw: Seq<char>) -> bool {
    &&& (kw == card_keyword() || kw == custom_card_keyword())
    &&& c.len() > kw.len()
    &&& c.subrange(0, kw.len() as int) == kw
    &&& forall|j: int| kw.len() <= j < c.len() ==> #[trigger] nesting(c, kw.len() as int, j) > 0
    &&& nesting(c, kw.len() as int, c.len() as int) == 0
}

pub open spec fn all_space(s: Seq<char>) -> bool {
    forall|t: int| 0 <= t < s.len() ==> #[trigger] is_space(s[t])
}

proof fn lemma_not_at(s: Seq<char>, i: int, p: Seq<char>)
    requires
        p.len() > 0,
        0 <= i < s.len(),
        s[i] != p[0],
    ensures
        !occurs_at(s, i, p),
{
    if occurs_at(s, i, p) {
        assert(s.subrange(i, i + p.len())[0] == s[i]);
    }
}

/// Outside a card and before any marker, a white-space character changes
/// nothing.
proof fn lemma_space_step(s: Seq<char>, i: int, st: ScanState)
    requires
        0 <= i < s.len(),
        is_space(s[i]),
        !st.inside,
        !st.started,
    ensures
        step(s, i, st) == (i + 1, st),
{
    assert(!is_space('#') && !is_space('/'));
    lemma_not_at(s, i, card_keyword());
    lemma_not_at(s, i, custom_card_keyword());
    lemma_not_at(s, i, slashes());
    lemma_not_at(s, i, spaced_slashes());
}

proof fn lemma_leading_spaces(s: Seq<char>, i: int, p: int)
    requires
        0 <= i <= p <= s.len(),
        forall|t: int| 0 <= t < p ==> #[trigger] is_space(s[t]),
    ensures
        scan_from(s, i, scan_start()) == scan_from(s, p, scan_start()),
    decreases p - i,
{
    if i < p {
        lemma_space_step(s, i, scan_start());
        lemma_leading_spaces(s, i + 1, p);
    }
}

proof fn lemma_trailing_spaces(s: Seq<char>, i: int, st: ScanState)
    requires
        0 <= i <= s.len(),
        forall|t: int| i <= t < s.len() ==> #[trigger] is_space(s[t]),
        !st.inside,
        !st.started,
    ensures
        scan_from(s, i, st) == st,
    decreases s.len() - i,
{
    if i < s.len() {
        lemma_space_step(s, i, st);
        lemma_trailing_spaces(s, i + 1, st);
    }
}

pub open spec fn inside_card(c: Seq<char>, kw_len: int, j: int) -> ScanState {
    ScanState {
        inside: true,
        depth: nesting(c, kw_len, j),
        card: c.subrange(0, j),
        prelude: Seq::empty(),
        started: false,
        out: Seq::empty(),
    }
}

pub open spec fn closed_card(c: Seq<char>) -> ScanState {
    ScanState {
        inside: false,
        depth: 0,
        card: Seq::empty(),
        prelude: Seq::empty(),
        started: false,
        out: seq![emitted(Seq::empty(), c)],
    }
}

proof fn lemma_inside(s: Seq<char>, p: int, c: Seq<char>, kw: Seq<char>, j: int)
    requires
        well_formed_card(c, kw),
        0 <= p,
        p + c.len() <= s.len(),
        s.subrange(p, p + c.len()) == c,
        kw.len() <= j < c.len(),
    ensures
        scan_from(s, p + j, inside_card(c, kw.len() as int, j)) == scan_from(
            s,
            p + c.len(),
            closed_card(c),
        ),
    decreases c.len() - j,
{
    let k = kw.len() as int;
    assert(s[p + j] == c[j]) by {
        assert(s.subrange(p, p + c.len())[j] == s[p + j]);
    }
    assert(nesting(c, k, j + 1) == nesting(c, k, j) + paren_delta(c[j]));
    assert(c.subrange(0, j).push(c[j]) =~= c.subrange(0, j + 1));
    assert(nesting(c, k, j) > 0);
    if j + 1 == c.len() {
        assert(c.subrange(0, j + 1) =~= c);
        assert(step(s, p + j, inside_card(c, k, j)) == (p + j + 1, closed_card(c)));
    } else {
        assert(nesting(c, k, j + 1) > 0);
        assert(step(s, p + j, inside_card(c, k, j)) == (p + j + 1, inside_card(c, k, j + 1)));
        lemma_inside(s, p, c, kw, j + 1);
    }
}

proof fn lemma_trim_start_spaces(q: Seq<char>, y: Seq<char>)
    requires
        all_space(q),
        y.len() > 0,
        !is_space(y[0]),
    ensures
        trim_start(q + y) == y,
    decreases q.len(),
{
    if q.len() == 0 {
        assert(q + y =~= y);
    } else {
        assert((q + y).drop_first() =~= q.drop_first() + y);
        lemma_trim_start_spaces(q.drop_first(), y);
    }
}

proof fn lemma_trim_end_spaces(y: Seq<char>, q: Seq<char>)
    requires
        all_space(q),
        y.len() > 0,
        !is_space(y.last()),
    ensures
        trim_end(y + q) == y,
    decreases q.len(),
{
    if q.len() == 0 {
        assert(y + q =~= y);
    } else {
        assert((y + q).drop_last() =~= y + q.drop_last());
        lemma_trim_end_spaces(y, q.drop_last());
    }
}

/// A document that is one well-formed card text, with only white space
/// around it, yields exactly one record: a newline (the empty prelude) and
/// the card text. Trimmed, the record is the document without its
/// surrounding white space, and it has the card's id and deck fields.
pub proof fn lemma_card_text_yields_one_record(
    pre: Seq<char>,
    c: Seq<char>,
    post: Seq<char>,
    kw: Seq<char>,
)
    requires
        well_formed_card(c, kw),
        all_space(pre),
        all_space(post),
    ensures
        cards_of(pre + c + post).len() == 1,
        cards_of(pre + c + post)[0] == seq!['\n'] + c,
        trim(cards_of(pre + c + post)[0]) == c,
        trim(pre + c + post) == c,
        field_value(cards_of(pre + c + post)[0], id_field()) == field_value(c, id_field()),
        field_value(cards_of(pre + c + post)[0], deck_field()) == field_value(c, deck_field()),
{
    let s = pre + c + post;
    let p = pre.len() as int;
    let k = kw.len() as int;
    assert(s.subrange(p, p + c.len()) =~= c);
    assert(s.subrange(p, p + k) =~= kw) by {
        assert(c.subrange(0, k) == kw);
        assert forall|t: int| 0 <= t < k implies #[trigger] s.subrange(p, p + k)[t] == kw[t] by {
            assert(s[p + t] == c[t]);
            assert(c.subrange(0, k)[t] == c[t]);
        }
    }
    assert(c[0] == '#') by {
        assert(c.subrange(0, k)[0] == c[0]);
    }
    lemma_leading_spaces(s, 0, p);
    if kw == custom_card_keyword() {
        assert(s[p + 2] == 'u') by {
            assert(s.subrange(p, p + k)[2] == s[p + 2]);
        }
        if occurs_at(s, p, card_keyword()) {
            assert(s.subrange(p, p + 6)[2] == s[p + 2]);
        }
    }
    assert(occurs_at(s, p, kw));
    assert(kw =~= c.subrange(0, k));
    assert(open_card(scan_start(), kw) == inside_card(c, k, k));
    assert(step(s, p, scan_start()) == (p + k, inside_card(c, k, k)));
    lemma_inside(s, p, c, kw, k);
    assert forall|t: int| p + c.len() <= t < s.len() implies #[trigger] is_space(s[t]) by {
        assert(s[t] == post[t - p - c.len()]);
    }
    lemma_trailing_spaces(s, p + c.len(), closed_card(c));
    assert(nesting(c, k, c.len() as int) == nesting(c, k, c.len() - 1) + paren_delta(c.last()));
    assert(nesting(c, k, c.len() - 1) > 0);
    assert(c.last() == ')');
    assert(!is_space('#') && !is_space(')') && is_space('\n'));
    lemma_trim_start_spaces(Seq::empty(), c);
    assert(Seq::<char>::empty() + c =~= c);
    lemma_trim_end_spaces(c, Seq::empty());
    assert(c + Seq::<char>::empty() =~= c);
    assert(trim(Seq::<char>::empty()) =~= Seq::<char>::empty());
    assert(emitted(Seq::empty(), c) =~= seq!['\n'] + c);
    lemma_trim_start_spaces(seq!['\n'], c);
    lemma_trim_start_spaces(pre, c + post);
    assert(pre + c + post =~= pre + (c + post));
    lemma_trim_end_spaces(c, post);
    lemma_field_after_newline(c, id_field());
    lemma_field_after_newline(c, deck_field());
}

} // verus!
