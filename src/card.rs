use vstd::prelude::*;

use crate::cache::{classify, CardModificationStatus, CardsCacheManager};
use crate::fingerprint::{composite, hash_string, key_of, md5_hex};
use crate::text::{chars_of, is_space, is_space_char, occurs_at, occurs_at_exec, slice_chars, string_of};

verus! {

pub open spec fn id_field() -> Seq<char> {
    seq!['i', 'd', ':']
}

pub open spec fn deck_field() -> Seq<char> {
    seq!['t', 'a', 'r', 'g', 'e', 't', '-', 'd', 'e', 'c', 'k', ':']
}

pub open spec fn question_field() -> Seq<char> {
    seq!['q', ':']
}

pub open spec fn answer_field() -> Seq<char> {
    seq!['a', ':']
}

/// Every character of `s[a..b]` is white space.
pub open spec fn spaces_between(s: Seq<char>, a: int, b: int) -> bool {
    forall|t: int| a <= t < b ==> #[trigger] is_space(s[t])
}

/// At `i` stands `name`, then white space up to the quote at `k`, then a
/// non-empty run of other characters up to the quote at `m`.
pub open spec fn quoted_field_at(s: Seq<char>, name: Seq<char>, i: int, k: int, m: int) -> bool {
    &&& occurs_at(s, i, name)
    &&& i + name.len() <= k
    &&& spaces_between(s, i + name.len(), k)
    &&& k < s.len()
    &&& s[k] == '"'
    &&& k + 1 < m < s.len()
    &&& s[m] == '"'
    &&& forall|t: int| k < t < m ==> #[trigger] s[t] != '"'
}

pub open spec fn field_starts_at(s: Seq<char>, name: Seq<char>, i: int) -> bool {
    exists|k: int, m: int| quoted_field_at(s, name, i, k, m)
}

/// The quoted value of the field that starts at `i`.
pub open spec fn field_value_at(s: Seq<char>, name: Seq<char>, i: int) -> Seq<char> {
    let (k, m) = choose|k: int, m: int| quoted_field_at(s, name, i, k, m);
    s.subrange(k + 1, m)
}

/// The value of the first field `name` at or after `i`.
pub open spec fn field_from(s: Seq<char>, name: Seq<char>, i: int) -> Option<Seq<char>>
    decreases s.len() - i,
{
    if 0 <= i < s.len() {
        if field_starts_at(s, name, i) {
            Some(field_value_at(s, name, i))
        } else {
            field_from(s, name, i + 1)
        }
    } else {
        None
    }
}

/// The value of the first field `name` of a card: `name`, optional white
/// space, then a non-empty quoted text.
pub open spec fn field_value(s: Seq<char>, name: Seq<char>) -> Option<Seq<char>> {
    field_from(s, name, 0)
}

/// At `j` stands optional white space, then `[` or `"` at `k`, optional white
/// space, and the matching `]` or `"` at `m`.
pub open spec fn blank_value_at(s: Seq<char>, j: int, k: int, m: int) -> bool {
    &&& j <= k
    &&& spaces_between(s, j, k)
    &&& k < m < s.len()
    &&& spaces_between(s, k + 1, m)
    &&& ((s[k] == '[' && s[m] == ']') || (s[k] == '"' && s[m] == '"'))
}

pub open spec fn blank_field_at(s: Seq<char>, name: Seq<char>, i: int) -> bool {
    occurs_at(s, i, name) && exists|k: int, m: int| #[trigger] blank_value_at(s, i + name.len(), k, m)
}

pub open spec fn has_blank_field(s: Seq<char>, name: Seq<char>) -> bool {
    exists|i: int| blank_field_at(s, name, i)
}

/// A card whose question and answer are both blank.
pub open spec fn card_is_empty(s: Seq<char>) -> bool {
    has_blank_field(s, question_field()) && has_blank_field(s, answer_field())
}

/// The first position at or after `j` that holds no white space.
pub(crate) fn skip_spaces(s: &Vec<char>, j: usize) -> (k: usize)
    requires
        j <= s.len(),
    ensures
        j <= k <= s.len(),
        spaces_between(s@, j as int, k as int),
        k < s.len() ==> !is_space(s@[k as int]),
{
    let mut k = j;
    while k < s.len() && is_space_char(s[k])
        invariant
            j <= k <= s.len(),
            spaces_between(s@, j as int, k as int),
        decreases s.len() - k,
    {
        k = k + 1;
    }
    k
}

/// The first position at or after `j` that holds a quote, or the length.
pub(crate) fn next_quote(s: &Vec<char>, j: usize) -> (m: usize)
    requires
        j <= s.len(),
    ensures
        j <= m <= s.len(),
        forall|t: int| j <= t < m ==> #[trigger] s@[t] != '"',
        m < s.len() ==> s@[m as int] == '"',
{
    let mut m = j;
    while m < s.len() && s[m] != '"'
        invariant
            j <= m <= s.len(),
            forall|t: int| j <= t < m ==> #[trigger] s@[t] != '"',
        decreases s.len() - m,
    {
        m = m + 1;
    }
    m
}

pub(crate) proof fn lemma_quoted_field_unique(
    s: Seq<char>,
    name: Seq<char>,
    i: int,
    k1: int,
    m1: int,
    k2: int,
    m2: int,
)
    requires
        quoted_field_at(s, name, i, k1, m1),
        quoted_field_at(s, name, i, k2, m2),
    ensures
        k1 == k2 && m1 == m2,
{
    assert(!is_space('"'));
    if k1 < k2 {
        assert(is_space(s[k1]));
    }
    if k2 < k1 {
        assert(is_space(s[k2]));
    }
    if m1 < m2 {
        assert(s[m1] != '"');
    }
    if m2 < m1 {
        assert(s[m2] != '"');
    }
}

/// The value of the first field `name` in `s`.
fn find_field(s: &Vec<char>, name: &Vec<char>) -> (r: Option<Vec<char>>)
    ensures
        match r {
            Some(v) => field_value(s@, name@) == Some(v@),
            None => field_value(s@, name@) is None,
        },
{
    let n = s.len();
    let mut i: usize = 0;
    while i < n
        invariant
            i <= n == s.len(),
            field_from(s@, name@, i as int) == field_value(s@, name@),
        decreases n - i,
    {
        if occurs_at_exec(s, i, name) {
            let k = skip_spaces(s, i + name.len());
            if k < n && s[k] == '"' {
                let m = next_quote(s, k + 1);
                if m < n && m > k + 1 {
                    proof {
                        assert(quoted_field_at(s@, name@, i as int, k as int, m as int));
                        let (k2, m2) = choose|k2: int, m2: int|
                            quoted_field_at(s@, name@, i as int, k2, m2);
                        lemma_quoted_field_unique(
                            s@,
                            name@,
                            i as int,
                            k as int,
                            m as int,
                            k2,
                            m2,
                        );
                    }
                    return Some(slice_chars(s, k + 1, m));
                }
                proof {
                    assert(!field_starts_at(s@, name@, i as int)) by {
                        if exists|k2: int, m2: int| quoted_field_at(s@, name@, i as int, k2, m2) {
                            let (k2, m2) = choose|k2: int, m2: int|
                                quoted_field_at(s@, name@, i as int, k2, m2);
                            assert(!is_space('"'));
                            if k2 < k {
                                assert(is_space(s@[k2]));
                            }
                            if k < k2 {
                                assert(is_space(s@[k as int]));
                            }
                            if m2 < m {
                                assert(s@[m2] != '"');
                            }
                            if m < m2 {
                                assert(s@[m as int] != '"');
                            }
                        }
                    }
                }
            } else {
                proof {
                    assert(!field_starts_at(s@, name@, i as int)) by {
                        if exists|k2: int, m2: int| quoted_field_at(s@, name@, i as int, k2, m2) {
                            let (k2, m2) = choose|k2: int, m2: int|
                                quoted_field_at(s@, name@, i as int, k2, m2);
                            assert(!is_space('"'));
                            if k2 < k {
                                assert(is_space(s@[k2]));
                            }
                            if k < k2 {
                                assert(is_space(s@[k as int]));
                            }
                        }
                    }
                }
            }
        }
        i = i + 1;
    }
    None
}

fn is_blank_open(c: char) -> (r: bool)
    ensures
        r == (c == '[' || c == '"'),
{
    c == '[' || c == '"'
}

/// Whether a blank field `name` starts at `i`.
fn blank_at(s: &Vec<char>, name: &Vec<char>, i: usize) -> (r: bool)
    ensures
        r == blank_field_at(s@, name@, i as int),
{
    let n = s.len();
    if !occurs_at_exec(s, i, name) {
        return false;
    }
    let j = i + name.len();
    let k = skip_spaces(s, j);
    if k >= n || !is_blank_open(s[k]) {
        proof {
            assert forall|k2: int, m2: int| !#[trigger] blank_value_at(s@, j as int, k2, m2) by {
                if blank_value_at(s@, j as int, k2, m2) {
                    assert(!is_space('[') && !is_space('"'));
                    if k2 < k {
                        assert(is_space(s@[k2]));
                    }
                    if k < k2 {
                        assert(is_space(s@[k as int]));
                    }
                }
            }
        }
        return false;
    }
    let open = s[k];
    let m = skip_spaces(s, k + 1);
    if m < n && ((open == '[' && s[m] == ']') || (open == '"' && s[m] == '"')) {
        assert(blank_value_at(s@, j as int, k as int, m as int));
        return true;
    }
    proof {
        assert forall|k2: int, m2: int| !#[trigger] blank_value_at(s@, j as int, k2, m2) by {
            if blank_value_at(s@, j as int, k2, m2) {
                assert(!is_space('[') && !is_space('"') && !is_space(']'));
                if k2 < k {
                    assert(is_space(s@[k2]));
                }
                if k < k2 {
                    assert(is_space(s@[k as int]));
                }
                if m2 < m {
                    assert(is_space(s@[m2]));
                }
                if m < m2 {
                    assert(is_space(s@[m as int]));
                }
            }
        }
    }
    false
}

fn has_blank(s: &Vec<char>, name: &Vec<char>) -> (r: bool)
    ensures
        r == has_blank_field(s@, name@),
{
    let mut i: usize = 0;
    while i < s.len()
        invariant
            i <= s.len(),
            forall|i2: int| 0 <= i2 < i ==> !#[trigger] blank_field_at(s@, name@, i2),
        decreases s.len() - i,
    {
        if blank_at(s, name, i) {
            return true;
        }
        i = i + 1;
    }
    assert forall|i2: int| !#[trigger] blank_field_at(s@, name@, i2) by {
        if i2 >= s.len() || i2 < 0 {
            assert(!occurs_at(s@, i2, name@) || name@.len() == 0);
            if name@.len() == 0 && 0 <= i2 {
                assert(s@.len() <= i2);
            }
        }
    }
    false
}

/// Whether both the question and the answer of a card are blank: `q:` and
/// `a:` each followed by `[]` or `""` with only white space inside.
pub fn is_card_empty(card_str: &str) -> (r: bool)
    ensures
        r == card_is_empty(card_str@),
{
    let s = chars_of(card_str);
    let q = vec!['q', ':'];
    let a = vec!['a', ':'];
    has_blank(&s, &q) && has_blank(&s, &a)
}

pub open spec fn digit_char(d: nat) -> char {
    seq!['0', '1', '2', '3', '4', '5', '6', '7', '8', '9'][d as int]
}

/// The decimal digits of `n`.
pub open spec fn decimal(n: nat) -> Seq<char>
    decreases n,
{
    if n < 10 {
        seq![digit_char(n)]
    } else {
        decimal(n / 10).push(digit_char(n % 10))
    }
}

fn push_decimal(v: &mut Vec<char>, n: usize)
    ensures
        final(v)@ == old(v)@ + decimal(n as nat),
    decreases n,
{
    let digits = vec!['0', '1', '2', '3', '4', '5', '6', '7', '8', '9'];
    if n >= 10 {
        push_decimal(v, n / 10);
    }
    v.push(digits[n % 10]);
    assert(v@ =~= old(v)@ + decimal(n as nat));
}

/// One card as found in a document.
#[derive(Debug, Clone)]
pub struct CardInfo {
    /// The document the card comes from.
    pub source_file: String,
    /// The card's own id.
    pub card_id: String,
    /// The deck the card names.
    pub deck_name: String,
    /// The deck's full name in the store, once looked up.
    pub anki_deck_name: Option<String>,
    /// The card's text, prelude included.
    pub content: String,
    /// The hash of `content`.
    pub content_hash: String,
    pub modification_status: CardModificationStatus,
}

impl CardInfo {
    /// Reads a card's id and deck from its text. Fails when either field is
    /// missing.
    pub fn from_string(_internal_id: i64, card_str: &str, filepath: String) -> (r: Result<
        Self,
        String,
    >)
        ensures
            field_value(card_str@, id_field()) is None ==> (r is Err && r->Err_0@
                == "Card ID not found"@),
            field_value(card_str@, id_field()) is Some && field_value(card_str@, deck_field()) is None
                ==> (r is Err && r->Err_0@ == "Target deck not found"@),
            field_value(card_str@, id_field()) is Some && field_value(card_str@, deck_field()) is Some
                ==> (r is Ok && r->Ok_0.card_id@ == field_value(card_str@, id_field())->0
                && r->Ok_0.deck_name@ == field_value(card_str@, deck_field())->0
                && r->Ok_0.content@ == card_str@ && r->Ok_0.content_hash@ == md5_hex(card_str@)
                && r->Ok_0.source_file@ == filepath@ && r->Ok_0.anki_deck_name is None
                && r->Ok_0.modification_status == CardModificationStatus::Unknown),
    {
        let s = chars_of(card_str);
        let id_name = vec!['i', 'd', ':'];
        let deck_name = vec!['t', 'a', 'r', 'g', 'e', 't', '-', 'd', 'e', 'c', 'k', ':'];
        let card_id = match find_field(&s, &id_name) {
            Some(v) => string_of(&v),
            None => {
                return Err(String::from_str("Card ID not found"));
            },
        };
        let target_deck = match find_field(&s, &deck_name) {
            Some(v) => string_of(&v),
            None => {
                return Err(String::from_str("Target deck not found"));
            },
        };
        Ok(CardInfo {
            source_file: filepath,
            card_id,
            deck_name: target_deck,
            anki_deck_name: None,
            content: String::from_str(card_str),
            content_hash: hash_string(card_str),
            modification_status: CardModificationStatus::Unknown,
        })
    }

    /// Classifies the card against the previous run's table.
    pub fn set_status(
        &mut self,
        cards_cache_manager: &CardsCacheManager,
        recompile_on_config_change: Option<bool>,
    )
        requires
            cards_cache_manager.wf(),
        ensures
            final(self).modification_status == classify(
                cards_cache_manager.old_cache@,
                key_of(old(self).deck_name@, old(self).card_id@),
                composite(cards_cache_manager.static_hash@, old(self).content_hash@),
                recompile_on_config_change,
            ),
            final(self).source_file == old(self).source_file,
            final(self).card_id == old(self).card_id,
            final(self).deck_name == old(self).deck_name,
            final(self).anki_deck_name == old(self).anki_deck_name,
            final(self).content == old(self).content,
            final(self).content_hash == old(self).content_hash,
    {
        self.modification_status = cards_cache_manager.classify_card(
            self.deck_name.as_str(),
            self.card_id.as_str(),
            self.content_hash.as_str(),
            recompile_on_config_change,
        );
    }

    /// The name of the card's image of page `page`.
    pub fn image_path(&self, page: usize) -> (r: String)
        ensures
            r@ == seq!['t', 'y', 'p', '-'] + self.card_id@ + seq!['-'] + decimal(page as nat)
                + seq!['.', 'p', 'n', 'g'],
    {
        let mut v = vec!['t', 'y', 'p', '-'];
        let id = chars_of(self.card_id.as_str());
        let mut k: usize = 0;
        while k < id.len()
            invariant
                k <= id.len(),
                id@ == self.card_id@,
                v@ == seq!['t', 'y', 'p', '-'] + id@.subrange(0, k as int),
            decreases id.len() - k,
        {
            v.push(id[k]);
            k = k + 1;
            assert(v@ =~= seq!['t', 'y', 'p', '-'] + id@.subrange(0, k as int));
        }
        assert(id@.subrange(0, id.len() as int) =~= id@);
        v.push('-');
        push_decimal(&mut v, page);
        v.push('.');
        v.push('p');
        v.push('n');
        v.push('g');
        assert(v@ =~= seq!['t', 'y', 'p', '-'] + self.card_id@ + seq!['-'] + decimal(page as nat)
            + seq!['.', 'p', 'n', 'g']);
        string_of(&v)
    }
}

/// Text `x` is text `c` behind one more character.
pub open spec fn shifted(x: Seq<char>, c: Seq<char>) -> bool {
    x.len() == c.len() + 1 && forall|t: int| 1 <= t <= c.len() ==> #[trigger] x[t] == c[t - 1]
}

proof fn lemma_quoted_shift_up(x: Seq<char>, c: Seq<char>, name: Seq<char>, i: int, k: int, m: int)
    requires
        shifted(x, c),
        0 <= i,
        quoted_field_at(c, name, i, k, m),
    ensures
        quoted_field_at(x, name, i + 1, k + 1, m + 1),
{
    assert(x.subrange(i + 1, i + 1 + name.len()) =~= c.subrange(i, i + name.len())) by {
        assert forall|t: int| 0 <= t < name.len() implies #[trigger] x.subrange(i + 1, i + 1 + name.len())[t]
            == c.subrange(i, i + name.len())[t] by {
            assert(x[i + 1 + t] == c[i + t]);
        }
    }
    assert(x[k + 1] == c[k]);
    assert(x[m + 1] == c[m]);
    assert forall|t: int| i + 1 + name.len() <= t < k + 1 implies #[trigger] is_space(x[t]) by {
        assert(x[t] == c[t - 1]);
    }
    assert forall|t: int| k + 1 < t < m + 1 implies #[trigger] x[t] != '"' by {
        assert(x[t] == c[t - 1]);
    }
}

proof fn lemma_quoted_shift_down(x: Seq<char>, c: Seq<char>, name: Seq<char>, i: int, k: int, m: int)
    requires
        shifted(x, c),
        0 <= i,
        quoted_field_at(x, name, i + 1, k, m),
    ensures
        quoted_field_at(c, name, i, k - 1, m - 1),
{
    assert(x.subrange(i + 1, i + 1 + name.len()) =~= c.subrange(i, i + name.len())) by {
        assert forall|t: int| 0 <= t < name.len() implies #[trigger] x.subrange(i + 1, i + 1 + name.len())[t]
            == c.subrange(i, i + name.len())[t] by {
            assert(x[i + 1 + t] == c[i + t]);
        }
    }
    assert(x[k] == c[k - 1]);
    assert(x[m] == c[m - 1]);
    assert forall|t: int| i + name.len() <= t < k - 1 implies #[trigger] is_space(c[t]) by {
        assert(x[t + 1] == c[t]);
    }
    assert forall|t: int| k - 1 < t < m - 1 implies #[trigger] c[t] != '"' by {
        assert(x[t + 1] == c[t]);
    }
}

/// A character put in front of a text moves its fields one place on.
pub proof fn lemma_field_from_shift(c: Seq<char>, x: Seq<char>, name: Seq<char>, i: int)
    requires
        shifted(x, c),
        0 <= i,
    ensures
        field_from(x, name, i + 1) == field_from(c, name, i),
    decreases c.len() - i,
{
    if i < c.len() {
        let j = i + 1;
        if field_starts_at(c, name, i) {
            let (k, m) = choose|k: int, m: int| quoted_field_at(c, name, i, k, m);
            lemma_quoted_shift_up(x, c, name, i, k, m);
            let (k2, m2) = choose|k2: int, m2: int| quoted_field_at(x, name, j, k2, m2);
            lemma_quoted_field_unique(x, name, j, k + 1, m + 1, k2, m2);
            assert(x.subrange(k + 2, m + 1) =~= c.subrange(k + 1, m)) by {
                assert forall|t: int| 0 <= t < m - k - 1 implies #[trigger] x.subrange(k + 2, m + 1)[t]
                    == c.subrange(k + 1, m)[t] by {
                    assert(x[k + 2 + t] == c[k + 1 + t]);
                }
            }
        } else {
            if field_starts_at(x, name, j) {
                let (k2, m2) = choose|k2: int, m2: int| quoted_field_at(x, name, j, k2, m2);
                lemma_quoted_shift_down(x, c, name, i, k2, m2);
            }
            lemma_field_from_shift(c, x, name, i + 1);
        }
    }
}

/// A text behind a newline has the same fields as the text alone.
pub proof fn lemma_field_after_newline(c: Seq<char>, name: Seq<char>)
    requires
        name.len() > 0,
        name[0] != '\n',
    ensures
        field_value(seq!['\n'] + c, name) == field_value(c, name),
{
    let x = seq!['\n'] + c;
    assert forall|t: int| 1 <= t <= c.len() implies #[trigger] x[t] == c[t - 1] by {}
    lemma_field_from_shift(c, x, name, 0);
    assert(!field_starts_at(x, name, 0)) by {
        if occurs_at(x, 0, name) {
            assert(x.subrange(0, name.len() as int)[0] == name[0]);
        }
    }
}

} // verus!
