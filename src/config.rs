use vstd::prelude::*;

use crate::cache::{json_object_text, object_text};
use crate::fingerprint::{hash_string, md5_hex};
use crate::table::pair_views;
use crate::text::{
    chars_eq, chars_of, lemma_lex_asymmetric, lemma_lex_irreflexive, lemma_lex_total,
    lemma_lex_transitive, lex_less, lex_lt,
};

verus! {

pub const AUTO_DISPLAY: &'static str = "#let display_with_width(body) = {\n  body\n}";

pub const WIDTH_DISPLAY_HEAD: &'static str = "#let display_with_width(body) = {\n  layout(size => {\n    let (width,) = measure(body)\n    if width > ";

pub const WIDTH_DISPLAY_MIDDLE: &'static str = " {\n      width = ";

pub const WIDTH_DISPLAY_TAIL: &'static str = "\n    } else {\n      width = auto\n    }\n    context[\n      #block(width: width,body)\n    ]\n  })\n}";

pub const PAGE_SETUP: &'static str = "#set page(\n  width: auto,\n  height: auto,\n  margin: 3pt,\n  fill: rgb(255,255,255),\n)";

pub const CARD_FUNCTIONS: &'static str = "#let card(\n      id: \"\",\n      q: \"\",\n      a: \"\",\n      ..args\n    ) = {\n      let args = arguments(..args, type: \"basic\")\n      if args.at(\"type\") == \"basic\" {\n        context[\n          #display_with_width(q)\n          #pagebreak()\n          #display_with_width(a)\n        ]\n      }\n    }\n    #let custom-card = card\n    ";

pub const IMPORT_HEAD: &'static str = "#import \"";

pub const IMPORT_TAIL: &'static str = "\": *\n#show: doc => conf(doc)\n\n";

pub const BLANK_LINE: &'static str = "\n\n";

pub const NEWLINE: &'static str = "\n";

pub const AUTO: &'static str = "auto";

pub const HTML: &'static str = "html";

/// The text of the `display_with_width` helper for a width option.
pub open spec fn display_block(width: Seq<char>) -> Seq<char> {
    if width == AUTO@ {
        AUTO_DISPLAY@
    } else {
        WIDTH_DISPLAY_HEAD@ + width + WIDTH_DISPLAY_MIDDLE@ + width + WIDTH_DISPLAY_TAIL@
    }
}

/// The page set-up, absent for HTML output.
pub open spec fn page_block(output_type: Seq<char>) -> Seq<char> {
    if output_type == HTML@ {
        NEWLINE@
    } else {
        PAGE_SETUP@ + BLANK_LINE@
    }
}

/// The document compiled for a card: the template import, the page set-up,
/// the width helper, the card functions, then the card itself.
pub open spec fn card_file_text(
    ankiconf_path: Seq<char>,
    content: Seq<char>,
    width: Seq<char>,
    output_type: Seq<char>,
) -> Seq<char> {
    IMPORT_HEAD@ + ankiconf_path + IMPORT_TAIL@ + page_block(output_type) + display_block(width)
        + BLANK_LINE@ + CARD_FUNCTIONS@ + BLANK_LINE@ + content
}

/// What `<` `>` `&` and `"` become inside a double-quoted HTML attribute.
pub open spec fn attr_char(c: char) -> Seq<char> {
    if c == '&' {
        seq!['&', 'a', 'm', 'p', ';']
    } else if c == '<' {
        seq!['&', 'l', 't', ';']
    } else if c == '>' {
        seq!['&', 'g', 't', ';']
    } else if c == '"' {
        seq!['&', 'q', 'u', 'o', 't', ';']
    } else {
        seq![c]
    }
}

pub open spec fn attr_escaped(s: Seq<char>) -> Seq<char>
    decreases s.len(),
{
    if s.len() == 0 {
        Seq::empty()
    } else {
        attr_escaped(s.drop_last()) + attr_char(s.last())
    }
}

/// Whether a glob pattern matches a name; a pattern that does not parse is
/// the empty pattern.
pub uninterp spec fn glob_matches(pattern: Seq<char>, name: Seq<char>) -> bool;

/// Relies on `glob::Pattern::new` and `Pattern::matches`: the answer depends on
/// the two texts alone.
#[verifier::external_body]
fn pattern_matches(pattern: &str, name: &str) -> (r: bool)
    ensures
        r == glob_matches(pattern@, name@),
{
    glob::Pattern::new(pattern).unwrap_or_default().matches(name)
}

/// Relies on `html_escape::encode_double_quoted_attribute`, which replaces
/// `&`, `<`, `>` and `"` by their entities and keeps every other character.
#[verifier::external_body]
fn encode_attribute(s: &str) -> (r: String)
    ensures
        r@ == attr_escaped(s@),
{
    html_escape::encode_double_quoted_attribute(s).into_owned()
}

/// The text that the configuration hash covers: the options that change how a
/// card looks.
pub open spec fn config_fingerprint_pairs(
    exclude_decks: Seq<char>,
    max_card_width: Seq<char>,
    output_type: Seq<char>,
) -> Seq<(Seq<char>, Seq<char>)> {
    seq![
        ("exclude_decks"@, exclude_decks),
        ("max_card_width"@, max_card_width),
        ("output_type"@, output_type),
    ]
}

/// The texts joined, each followed by a newline.
pub open spec fn joined_text(w: Seq<Seq<char>>) -> Seq<char>
    decreases w.len(),
{
    if w.len() == 0 {
        Seq::empty()
    } else {
        joined_text(w.drop_last()) + w.last() + NEWLINE@
    }
}

/// Each text comes before the next in code-point order, so none repeats.
pub open spec fn strictly_sorted(w: Seq<Seq<char>>) -> bool {
    forall|a: int, b: int| 0 <= a < b < w.len() ==> lex_lt(#[trigger] w[a], #[trigger] w[b])
}

pub open spec fn item_set(w: Seq<Seq<char>>) -> Set<Seq<char>> {
    Set::new(|x: Seq<char>| exists|i: int| 0 <= i < w.len() && w[i] == x)
}

pub open spec fn pattern_set(v: Seq<String>) -> Set<Seq<char>> {
    Set::new(|x: Seq<char>| exists|i: int| 0 <= i < v.len() && v[i]@ == x)
}

/// The distinct patterns of `v` in code-point order: a function of the set
/// of patterns alone, not of their order or repetition.
pub open spec fn sorted_patterns(v: Seq<String>) -> Seq<Seq<char>> {
    choose|w: Seq<Seq<char>>| strictly_sorted(w) && item_set(w) == pattern_set(v)
}

/// Two sorted lists of the same texts are the same list.
pub proof fn lemma_sorted_unique(v: Seq<Seq<char>>, w: Seq<Seq<char>>)
    requires
        strictly_sorted(v),
        strictly_sorted(w),
        item_set(v) == item_set(w),
    ensures
        v == w,
    decreases v.len(),
{
    if v.len() == 0 {
        if w.len() > 0 {
            assert(item_set(w).contains(w[0]));
        }
        assert(v =~= w);
    } else {
        assert(item_set(v).contains(v[0]));
        assert(w.len() > 0);
        assert(item_set(w).contains(w[0]));
        let j = choose|j: int| 0 <= j < w.len() && w[j] == v[0];
        let i = choose|i: int| 0 <= i < v.len() && v[i] == w[0];
        lemma_lex_irreflexive(v[0]);
        lemma_lex_asymmetric(v[0], w[0]);
        if j > 0 {
            assert(lex_lt(w[0], w[j]));
            if i > 0 {
                assert(lex_lt(v[0], v[i]));
            }
        }
        assert(v[0] == w[0]);
        let v1 = v.drop_first();
        let w1 = w.drop_first();
        assert(item_set(v1) =~= item_set(w1)) by {
            assert forall|x: Seq<char>| item_set(v1).contains(x) implies item_set(w1).contains(x) by {
                let a = choose|a: int| 0 <= a < v1.len() && v1[a] == x;
                assert(item_set(v).contains(x) && v[a + 1] == x);
                assert(lex_lt(v[0], v[a + 1]));
                lemma_lex_irreflexive(x);
                let b = choose|b: int| 0 <= b < w.len() && w[b] == x;
                assert(b != 0);
                assert(w1[b - 1] == x);
            }
            assert forall|x: Seq<char>| item_set(w1).contains(x) implies item_set(v1).contains(x) by {
                let a = choose|a: int| 0 <= a < w1.len() && w1[a] == x;
                assert(item_set(w).contains(x) && w[a + 1] == x);
                assert(lex_lt(w[0], w[a + 1]));
                lemma_lex_irreflexive(x);
                let b = choose|b: int| 0 <= b < v.len() && v[b] == x;
                assert(b != 0);
                assert(v1[b - 1] == x);
            }
        }
        lemma_sorted_unique(v1, w1);
        assert(v =~= w) by {
            assert forall|k: int| 0 <= k < v.len() implies v[k] == w[k] by {
                if k > 0 {
                    assert(v[k] == v1[k - 1] && w[k] == w1[k - 1]);
                }
            }
        }
    }
}

/// Configurations whose excluded decks form the same set of patterns hash
/// the same text for them, whatever the order or repetition of the patterns.
pub proof fn lemma_deck_order_does_not_matter(a: Seq<String>, b: Seq<String>)
    requires
        pattern_set(a) == pattern_set(b),
    ensures
        joined_text(sorted_patterns(a)) == joined_text(sorted_patterns(b)),
{
}

/// The options of a run.
#[derive(Debug)]
pub struct Config {
    pub check_duplicates: bool,
    /// Glob patterns of decks to leave out.
    pub exclude_decks: Vec<String>,
    /// Glob patterns of documents to leave out.
    pub exclude_files: Vec<String>,
    /// The path the operator gave.
    pub asked_path: String,
    /// The folder the documents are read from.
    pub path: String,
    /// Whether drift of the configuration alone forces recompilation; `None`
    /// until decided.
    pub recompile_on_config_change: Option<bool>,
    pub dry_run: bool,
    pub max_card_width: String,
    pub skip_cache: bool,
    pub generation_concurrency: usize,
    pub keep_terminal_open: bool,
    pub is_zip: bool,
    pub config_hash: Option<String>,
    pub output_type: String,
    pub typst_input: Vec<(String, String)>,
}

impl Config {
    pub open spec fn deck_excluded(&self, deck: Seq<char>) -> bool {
        exists|i: int|
            0 <= i < self.exclude_decks.len() && glob_matches(
                #[trigger] self.exclude_decks@[i]@,
                deck,
            )
    }

    pub open spec fn file_excluded(&self, file: Seq<char>) -> bool {
        exists|i: int|
            0 <= i < self.exclude_files.len() && glob_matches(
                #[trigger] self.exclude_files@[i]@,
                file,
            )
    }

    /// Whether some pattern of `exclude_decks` matches the deck.
    pub fn is_deck_excluded(&self, deck_name: &str) -> (r: bool)
        ensures
            r == self.deck_excluded(deck_name@),
    {
        let mut i: usize = 0;
        while i < self.exclude_decks.len()
            invariant
                i <= self.exclude_decks.len(),
                forall|j: int|
                    0 <= j < i ==> !glob_matches(#[trigger] self.exclude_decks@[j]@, deck_name@),
            decreases self.exclude_decks.len() - i,
        {
            if pattern_matches(self.exclude_decks[i].as_str(), deck_name) {
                return true;
            }
            i = i + 1;
        }
        false
    }

    /// Whether some pattern of `exclude_files` matches the document's path.
    pub fn is_file_excluded(&self, file_name: &str) -> (r: bool)
        ensures
            r == self.file_excluded(file_name@),
    {
        let mut i: usize = 0;
        while i < self.exclude_files.len()
            invariant
                i <= self.exclude_files.len(),
                forall|j: int|
                    0 <= j < i ==> !glob_matches(#[trigger] self.exclude_files@[j]@, file_name@),
            decreases self.exclude_files.len() - i,
        {
            if pattern_matches(self.exclude_files[i].as_str(), file_name) {
                return true;
            }
            i = i + 1;
        }
        false
    }

    /// The front field of a note: the front image.
    pub fn template_front(&self, front_image_path: &str) -> (r: String)
        ensures
            r@ == "<img src=\""@ + attr_escaped(front_image_path@) + "\">"@,
    {
        let mut r = String::from_str("<img src=\"");
        let e = encode_attribute(front_image_path);
        r.append(e.as_str());
        r.append("\">");
        r
    }

    /// The back field of a note: the back image.
    pub fn template_back(&self, back_image_path: &str) -> (r: String)
        ensures
            r@ == "<img src=\""@ + attr_escaped(back_image_path@) + "\">"@,
    {
        let mut r = String::from_str("<img src=\"");
        let e = encode_attribute(back_image_path);
        r.append(e.as_str());
        r.append("\">");
        r
    }

    /// Sets `config_hash` to the hash of the options that change how a card
    /// looks: the excluded decks (as a sorted set of patterns), the card width
    /// and the output type. The concurrency, the dry-run flag and the cache
    /// flag are left out.
    pub fn compute_hash(&mut self)
        ensures
            final(self).config_hash is Some,
            final(self).config_hash->0@ == md5_hex(
                json_object_text(
                    config_fingerprint_pairs(
                        joined_text(sorted_patterns(old(self).exclude_decks@)),
                        old(self).max_card_width@,
                        old(self).output_type@,
                    ),
                ),
            ),
            final(self).exclude_decks == old(self).exclude_decks,
            final(self).max_card_width == old(self).max_card_width,
            final(self).output_type == old(self).output_type,
            final(self).recompile_on_config_change == old(self).recompile_on_config_change,
            final(self).generation_concurrency == old(self).generation_concurrency,
            final(self).check_duplicates == old(self).check_duplicates,
            final(self).dry_run == old(self).dry_run,
            final(self).skip_cache == old(self).skip_cache,
    {
        let sorted = sorted_unique(&self.exclude_decks);
        let ghost ws = Seq::new(sorted.len() as nat, |k: int| sorted@[k]@);
        proof {
            let w2 = sorted_patterns(self.exclude_decks@);
            assert(strictly_sorted(ws) && item_set(ws) == pattern_set(self.exclude_decks@));
            lemma_sorted_unique(ws, w2);
        }
        let mut decks = String::new();
        let mut i: usize = 0;
        while i < sorted.len()
            invariant
                i <= sorted.len(),
                ws.len() == sorted.len(),
                forall|k: int| 0 <= k < sorted.len() ==> #[trigger] ws[k] == sorted@[k]@,
                decks@ == joined_text(ws.subrange(0, i as int)),
            decreases sorted.len() - i,
        {
            decks.append(sorted[i].as_str());
            decks.append(NEWLINE);
            proof {
                assert(ws.subrange(0, i + 1).drop_last() =~= ws.subrange(0, i as int));
                assert(ws.subrange(0, i + 1).last() == sorted@[i as int]@);
            }
            i = i + 1;
        }
        assert(ws.subrange(0, sorted.len() as int) =~= ws);
        let pairs = vec![
            (String::from_str("exclude_decks"), decks),
            (String::from_str("max_card_width"), self.max_card_width.clone()),
            (String::from_str("output_type"), self.output_type.clone()),
        ];
        assert(pair_views(pairs@) =~= config_fingerprint_pairs(
            joined_text(sorted_patterns(self.exclude_decks@)),
            self.max_card_width@,
            self.output_type@,
        ));
        let text = object_text(&pairs);
        self.config_hash = Some(hash_string(text.as_str()));
    }
}

/// The distinct patterns of `v`, in code-point order.
pub fn sorted_unique(v: &Vec<String>) -> (r: Vec<String>)
    ensures
        strictly_sorted(Seq::new(r.len() as nat, |k: int| r@[k]@)),
        item_set(Seq::new(r.len() as nat, |k: int| r@[k]@)) == pattern_set(v@),
{
    let mut w: Vec<String> = Vec::new();
    let ghost mut ws: Seq<Seq<char>> = Seq::empty();
    let mut i: usize = 0;
    while i < v.len()
        invariant
            i <= v.len(),
            ws.len() == w.len(),
            forall|k: int| 0 <= k < w.len() ==> #[trigger] ws[k] == w@[k]@,
            strictly_sorted(ws),
            item_set(ws) == pattern_set(v@.subrange(0, i as int)),
        decreases v.len() - i,
    {
        let d = &v[i];
        let dc = chars_of(d.as_str());
        let mut p: usize = 0;
        while p < w.len() && lex_less(&chars_of(w[p].as_str()), &dc)
            invariant
                p <= w.len(),
                ws.len() == w.len(),
                forall|k: int| 0 <= k < w.len() ==> #[trigger] ws[k] == w@[k]@,
                dc@ == d@,
                forall|q: int| 0 <= q < p ==> lex_lt(#[trigger] ws[q], d@),
            decreases w.len() - p,
        {
            p = p + 1;
        }
        let ghost before = ws;
        let present = p < w.len() && w[p] == *d;
        if !present {
            w.insert(p, d.clone());
            proof {
                ws = ws.insert(p as int, d@);
                if p < before.len() {
                    lemma_lex_total(before[p as int], d@);
                }
                assert forall|a: int, b: int| 0 <= a < b < ws.len() implies lex_lt(
                    #[trigger] ws[a],
                    #[trigger] ws[b],
                ) by {
                    if b < p {
                        assert(lex_lt(before[a], before[b]));
                    } else if b == p {
                        assert(lex_lt(before[a], d@));
                    } else if a < p {
                        assert(lex_lt(before[a], d@));
                        assert(lex_lt(d@, before[p as int]));
                        if b - 1 > p {
                            assert(lex_lt(before[p as int], before[b - 1]));
                            lemma_lex_transitive(d@, before[p as int], before[b - 1]);
                        }
                        lemma_lex_transitive(before[a], d@, before[b - 1]);
                    } else if a == p {
                        assert(lex_lt(d@, before[p as int]));
                        if b - 1 > p {
                            assert(lex_lt(before[p as int], before[b - 1]));
                            lemma_lex_transitive(d@, before[p as int], before[b - 1]);
                        }
                    } else {
                        assert(lex_lt(before[a - 1], before[b - 1]));
                    }
                }
            }
        }
        proof {
            let prev = v@.subrange(0, i as int);
            let next = v@.subrange(0, i + 1);
            assert(item_set(ws) =~= pattern_set(next)) by {
                assert forall|x: Seq<char>| item_set(ws).contains(x) implies pattern_set(next).contains(x) by {
                    let a = choose|a: int| 0 <= a < ws.len() && ws[a] == x;
                    if !present && a == p {
                        assert(next[i as int]@ == x);
                    } else {
                        let a2 = if !present && a > p { a - 1 } else { a };
                        assert(before[a2] == x);
                        assert(item_set(before).contains(x));
                        let t = choose|t: int| 0 <= t < prev.len() && prev[t]@ == x;
                        assert(next[t]@ == x);
                    }
                }
                assert forall|x: Seq<char>| pattern_set(next).contains(x) implies item_set(ws).contains(x) by {
                    let t = choose|t: int| 0 <= t < next.len() && next[t]@ == x;
                    if t == i {
                        if present {
                            assert(ws[p as int] == x);
                        } else {
                            assert(ws[p as int] == x);
                        }
                    } else {
                        assert(prev[t]@ == x);
                        assert(pattern_set(prev).contains(x));
                        assert(item_set(before).contains(x));
                        let a = choose|a: int| 0 <= a < before.len() && before[a] == x;
                        if !present && a >= p {
                            assert(ws[a + 1] == x);
                        } else {
                            assert(ws[a] == x);
                        }
                    }
                }
            }
        }
        i = i + 1;
    }
    assert(v@.subrange(0, v.len() as int) =~= v@);
    assert(Seq::new(w.len() as nat, |k: int| w@[k]@) =~= ws);
    w
}

/// The document to compile for a card, whose template stands at
/// `ankiconf_relative_path` from the card's document.
pub fn generate_card_file_content(
    cfg: &Config,
    ankiconf_relative_path: &str,
    card_content: &str,
) -> (r: String)
    ensures
        r@ == card_file_text(
            ankiconf_relative_path@,
            card_content@,
            cfg.max_card_width@,
            cfg.output_type@,
        ),
{
    let mut t = String::from_str(IMPORT_HEAD);
    t.append(ankiconf_relative_path);
    t.append(IMPORT_TAIL);
    let html = chars_eq(&chars_of(cfg.output_type.as_str()), &chars_of(HTML));
    if html {
        t.append(NEWLINE);
    } else {
        t.append(PAGE_SETUP);
        t.append(BLANK_LINE);
    }
    let auto = chars_eq(&chars_of(cfg.max_card_width.as_str()), &chars_of(AUTO));
    if auto {
        t.append(AUTO_DISPLAY);
    } else {
        t.append(WIDTH_DISPLAY_HEAD);
        t.append(cfg.max_card_width.as_str());
        t.append(WIDTH_DISPLAY_MIDDLE);
        t.append(cfg.max_card_width.as_str());
        t.append(WIDTH_DISPLAY_TAIL);
    }
    t.append(BLANK_LINE);
    t.append(CARD_FUNCTIONS);
    t.append(BLANK_LINE);
    t.append(card_content);
    t
}

} // verus!
