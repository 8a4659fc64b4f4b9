//! Records of the vocabulary.com dictionary and the parsers that read its
//! word pages.
//!
//! A word page holds a short and a long blurb in a `word-area` block, and
//! a `word-definitions` block whose `li` elements each carry a definition,
//! optional usage examples, and optional synonyms.

use crate::error::Error;
use crate::scrape::{
    doc_outer_htmls, doc_select_htmls, doc_select_texts, doc_texts, frag_outer_htmls,
    frag_select_htmls, frag_select_texts, frag_texts, selector_ok, selector_parse,
};
use crate::text::{
    join_with, opt_view, opt_views, spec_join, spec_trim, trim, views2_of, views_of,
};
use crate::utils::{remove_escape_code, spec_remove_escape_code};
use vstd::prelude::*;

verus! {

/// Selector for the word-area block of a word page.
pub const WORD_AREA: &'static str = r#"div[class="word-area"]"#;

/// Selector for the long blurb inside the word-area block.
pub const LONG: &'static str = r#"P[class="long"]"#;

/// Selector for the short blurb inside the word-area block.
pub const SHORT: &'static str = r#"P[class="short"]"#;

/// Selector for the definitions block of a word page.
pub const DEFINITIONS: &'static str = r#"div[class="word-definitions"]"#;

/// Selector for one definition block inside the definitions block.
pub const DEFINITION_BLCOK: &'static str = "li";

/// Selector for the definition text inside one definition block.
pub const DEFINITION: &'static str = r#"div[class="definition"]"#;

/// Selector for a usage example inside one definition block.
pub const EXAMPLE: &'static str = r#"div[class="example"]"#;

/// Selector for a synonym link inside one definition block.
pub const SYNONYM: &'static str = r#"a[class="word"]"#;

/// Prefix of a word page's address; the encoded word follows it.
pub const PREFIX_URL: &'static str = "https://www.vocabulary.com/dictionary/";

/// The text parts of one match, each cleaned of escape characters,
/// joined with `sep`, and trimmed.
pub open spec fn tidy_spec(ts: Seq<Seq<char>>, sep: Seq<char>) -> Seq<char> {
    spec_trim(spec_join(ts.map_values(|t: Seq<char>| spec_remove_escape_code(t)), sep))
}

#[verifier::loop_isolation(false)]
fn tidy_text(parts: &Vec<String>, sep: &str) -> (r: String)
    ensures
        r@ == tidy_spec(views_of(parts@), sep@),
{
    let mut cleaned: Vec<String> = Vec::new();
    let ghost goal = views_of(parts@).map_values(|t: Seq<char>| spec_remove_escape_code(t));
    let mut i: usize = 0;
    while i < parts.len()
        invariant
            goal == views_of(parts@).map_values(|t: Seq<char>| spec_remove_escape_code(t)),
            i <= parts.len(),
            views_of(cleaned@) == goal.take(i as int),
        decreases parts.len() - i,
    {
        proof {
            assert(views_of(parts@)[i as int] == parts@[i as int]@);
        }
        let c = remove_escape_code(parts[i].as_str());
        cleaned.push(c);
        proof {
            assert(goal.len() == parts@.len());
            assert(goal.take(i as int).len() == i);
            assert(views_of(cleaned@) =~= goal.take(i + 1));
        }
        i += 1;
    }
    proof {
        assert(goal.take(parts@.len() as int) =~= goal);
        assert(views_of(cleaned@) == goal);
    }
    let joined = join_with(&cleaned, sep);
    trim(joined.as_str())
}

/// The ghost value of a word-area block.
pub struct AreaView {
    pub short: Option<Seq<char>>,
    pub long: Option<Seq<char>>,
}

/// The short and long blurbs of a word page.
#[derive(Debug, Default, Clone, PartialEq, Eq)]
pub struct Area {
    short: Option<String>,
    long: Option<String>,
}

impl View for Area {
    type V = AreaView;

    closed spec fn view(&self) -> AreaView {
        AreaView { short: opt_view(self.short), long: opt_view(self.long) }
    }
}

impl Area {
    /// An area with neither blurb set.
    pub fn new() -> (r: Area)
        ensures
            r@ == (AreaView { short: None, long: None }),
    {
        Area { short: None, long: None }
    }

    pub fn set_short(&mut self, short: Option<String>)
        ensures
            final(self)@ == (AreaView { short: opt_view(short), ..old(self)@ }),
    {
        self.short = short;
    }

    pub fn set_long(&mut self, long: Option<String>)
        ensures
            final(self)@ == (AreaView { long: opt_view(long), ..old(self)@ }),
    {
        self.long = long;
    }

    pub fn short(&self) -> (r: Option<&String>)
        ensures
            match r {
                Some(m) => self@.short == Some(m@),
                None => self@.short is None,
            },
    {
        self.short.as_ref()
    }

    pub fn long(&self) -> (r: Option<&String>)
        ensures
            match r {
                Some(m) => self@.long == Some(m@),
                None => self@.long is None,
            },
    {
        self.long.as_ref()
    }
}

/// The ghost value of one definition block.
pub struct DefView {
    pub definition: Seq<char>,
    pub synonym: Option<Seq<Seq<char>>>,
    pub examples: Option<Seq<Seq<char>>>,
}

/// One sense of a word: its definition, synonyms and usage examples.
#[derive(Debug, Default, Clone, PartialEq, Eq)]
pub struct Definition {
    definition: String,
    synonym: Option<Vec<String>>,
    examples: Option<Vec<String>>,
}

impl View for Definition {
    type V = DefView;

    closed spec fn view(&self) -> DefView {
        DefView {
            definition: self.definition@,
            synonym: opt_views(self.synonym),
            examples: opt_views(self.examples),
        }
    }
}

impl Definition {
    /// A definition with nothing set yet.
    pub fn new() -> (r: Definition)
        ensures
            r@ == (DefView { definition: Seq::<char>::empty(), synonym: None, examples: None }),
    {
        Definition { definition: String::new(), synonym: None, examples: None }
    }

    pub fn set_definition(&mut self, definition: String)
        ensures
            final(self)@ == (DefView { definition: definition@, ..old(self)@ }),
    {
        self.definition = definition;
    }

    pub fn set_synonym(&mut self, synonym: Option<Vec<String>>)
        ensures
            final(self)@ == (DefView { synonym: opt_views(synonym), ..old(self)@ }),
    {
        self.synonym = synonym;
    }

    pub fn set_examples(&mut self, examples: Option<Vec<String>>)
        ensures
            final(self)@ == (DefView { examples: opt_views(examples), ..old(self)@ }),
    {
        self.examples = examples;
    }

    pub fn definition(&self) -> (r: &str)
        ensures
            r@ == self@.definition,
    {
        self.definition.as_str()
    }

    pub fn synonym(&self) -> (r: Option<&Vec<String>>)
        ensures
            match r {
                Some(v) => self@.synonym == Some(views_of(v@)),
                None => self@.synonym is None,
            },
    {
        self.synonym.as_ref()
    }

    pub fn examples(&self) -> (r: Option<&Vec<String>>)
        ensures
            match r {
                Some(v) => self@.examples == Some(views_of(v@)),
                None => self@.examples is None,
            },
    {
        self.examples.as_ref()
    }
}

/// The ghost value of a whole word record.
pub struct VocView {
    pub word: Seq<char>,
    pub word_area: AreaView,
    pub definitions: Seq<DefView>,
}

/// One word of the vocabulary.com dictionary.
#[derive(Debug, Default, Clone)]
pub struct Vocabulary {
    word: String,
    word_area: Area,
    definitions: Vec<Definition>,
}

/// The ghost values of a sequence of definitions.
pub open spec fn def_views(ds: Seq<Definition>) -> Seq<DefView> {
    ds.map_values(|d: Definition| d@)
}

impl View for Vocabulary {
    type V = VocView;

    closed spec fn view(&self) -> VocView {
        VocView {
            word: self.word@,
            word_area: self.word_area@,
            definitions: def_views(self.definitions@),
        }
    }
}

impl Vocabulary {
    /// A record for `word` with no area or definitions yet.
    pub fn new(word: String) -> (r: Vocabulary)
        ensures
            r@.word == word@,
            r@.word_area == (AreaView { short: None, long: None }),
            r@.definitions =~= Seq::<DefView>::empty(),
    {
        Vocabulary { word, word_area: Area::new(), definitions: Vec::new() }
    }

    pub fn set_word_area(&mut self, word_area: Area)
        ensures
            final(self)@ == (VocView { word_area: word_area@, ..old(self)@ }),
    {
        self.word_area = word_area;
    }

    pub fn set_definitions(&mut self, definitions: Vec<Definition>)
        ensures
            final(self)@ == (VocView { definitions: def_views(definitions@), ..old(self)@ }),
    {
        self.definitions = definitions;
    }

    pub fn word(&self) -> (r: &str)
        ensures
            r@ == self@.word,
    {
        self.word.as_str()
    }

    pub fn word_area(&self) -> (r: &Area)
        ensures
            r@ == self@.word_area,
    {
        &self.word_area
    }

    pub fn definitions(&self) -> (r: &Vec<Definition>)
        ensures
            def_views(r@) == self@.definitions,
    {
        &self.definitions
    }
}

/// One side of the word area: the text of the first match of `selector`
/// inside the block, joined and trimmed; nothing when nothing matches.
pub open spec fn area_side_of(block: Seq<char>, selector: Seq<char>) -> Option<Seq<char>> {
    let ms = frag_texts(block, selector);
    if ms.len() == 0 {
        None
    } else {
        Some(spec_trim(spec_join(ms[0], ""@)))
    }
}

/// The short and long blurbs a word page carries, or an empty area when
/// the page has no word-area block.
pub open spec fn area_of(html: Seq<char>) -> AreaView {
    let blocks = doc_outer_htmls(html, WORD_AREA@);
    if blocks.len() == 0 {
        AreaView { short: None, long: None }
    } else {
        AreaView { short: area_side_of(blocks[0], SHORT@), long: area_side_of(blocks[0], LONG@) }
    }
}

/// The word area cannot be read: a selector needed for it is
/// unacceptable.
pub open spec fn word_area_parse_fails(html: Seq<char>) -> bool {
    ||| !selector_ok(WORD_AREA@)
    ||| (doc_outer_htmls(html, WORD_AREA@).len() > 0 && (!selector_ok(LONG@) || !selector_ok(
        SHORT@,
    )))
}

/// The short and long blurbs of a word page: both sides of the first
/// word-area block, or an empty area when the page has none.
///
/// Fails exactly when [`word_area_parse_fails`] holds.
pub fn parse_word_area(html: &str) -> (r: Result<Area, Error>)
    ensures
        match r {
            Ok(area) => !word_area_parse_fails(html@) && area@ == area_of(html@),
            Err(e) => e is ParseHtmlSelector && word_area_parse_fails(html@),
        },
{
    let sel = match selector_parse(WORD_AREA) {
        Some(s) => s,
        None => {
            return Err(Error::ParseHtmlSelector(String::from_str(WORD_AREA)));
        },
    };
    let blocks = doc_select_htmls(html, &sel);
    proof {
        assert(views_of(blocks@).len() == blocks@.len());
    }
    if blocks.len() == 0 {
        return Ok(Area::new());
    }
    let sel_long = match selector_parse(LONG) {
        Some(s) => s,
        None => {
            return Err(Error::ParseHtmlSelector(String::from_str(LONG)));
        },
    };
    let sel_short = match selector_parse(SHORT) {
        Some(s) => s,
        None => {
            return Err(Error::ParseHtmlSelector(String::from_str(SHORT)));
        },
    };
    let block = &blocks[0];
    proof {
        assert(views_of(blocks@)[0] == blocks@[0]@);
    }
    let longs = frag_select_texts(block.as_str(), &sel_long);
    let shorts = frag_select_texts(block.as_str(), &sel_short);
    let long_area = if longs.len() > 0 {
        proof {
            assert(views2_of(longs@).len() == longs@.len());
            assert(views2_of(longs@)[0] == views_of(longs@[0]@));
        }
        let joined = join_with(&longs[0], "");
        Some(trim(joined.as_str()))
    } else {
        proof {
            assert(views2_of(longs@).len() == longs@.len());
        }
        None
    };
    let short_area = if shorts.len() > 0 {
        proof {
            assert(views2_of(shorts@).len() == shorts@.len());
            assert(views2_of(shorts@)[0] == views_of(shorts@[0]@));
        }
        let joined = join_with(&shorts[0], "");
        Some(trim(joined.as_str()))
    } else {
        proof {
            assert(views2_of(shorts@).len() == shorts@.len());
        }
        None
    };
    let mut area = Area::new();
    area.set_long(long_area);
    area.set_short(short_area);
    Ok(area)
}

/// The synonyms a block of HTML carries: the text of each synonym link,
/// joined; nothing when there is none.
pub open spec fn synonyms_of(html: Seq<char>) -> Option<Seq<Seq<char>>> {
    let ms = doc_texts(html, SYNONYM@);
    if ms.len() == 0 {
        None
    } else {
        Some(ms.map_values(|ts: Seq<Seq<char>>| spec_join(ts, ""@)))
    }
}

/// The synonyms of a block of HTML, in document order, or nothing when
/// the block has none.
///
/// Fails exactly when the synonym selector is unacceptable.
#[verifier::loop_isolation(false)]
pub fn parse_synonym(html: &str) -> (r: Result<Option<Vec<String>>, Error>)
    ensures
        match r {
            Ok(ret) => selector_ok(SYNONYM@) && opt_views(ret) == synonyms_of(html@),
            Err(e) => e is ParseHtmlSelector && !selector_ok(SYNONYM@),
        },
{
    let sel = match selector_parse(SYNONYM) {
        Some(s) => s,
        None => {
            return Err(Error::ParseHtmlSelector(String::from_str(SYNONYM)));
        },
    };
    let texts = doc_select_texts(html, &sel);
    let ghost ms = doc_texts(html@, SYNONYM@);
    let ghost goal = ms.map_values(|ts: Seq<Seq<char>>| spec_join(ts, ""@));
    let mut ret: Vec<String> = Vec::new();
    let mut i: usize = 0;
    while i < texts.len()
        invariant
            ms == views2_of(texts@),
            goal == ms.map_values(|ts: Seq<Seq<char>>| spec_join(ts, ""@)),
            i <= texts.len(),
            views_of(ret@) == goal.take(i as int),
        decreases texts.len() - i,
    {
        proof {
            assert(views2_of(texts@)[i as int] == views_of(texts@[i as int]@));
            assert(ms.len() == texts@.len());
            assert(goal.len() == ms.len());
        }
        let joined = join_with(&texts[i], "");
        ret.push(joined);
        proof {
            assert(goal.take(i as int).len() == i);
            assert(views_of(ret@) =~= goal.take(i + 1));
        }
        i += 1;
    }
    proof {
        assert(ms.len() == texts@.len());
        assert(goal.take(texts@.len() as int) =~= goal);
    }
    if ret.len() == 0 {
        Ok(None)
    } else {
        Ok(Some(ret))
    }
}

/// The definition text of one `li` block: the tidied text of its first
/// definition element.  The empty text stands in for an `li` with none,
/// which [`parse_definitions`] rejects as a content-shape failure.
pub open spec fn def_text_of(li: Seq<char>) -> Seq<char> {
    let ds = frag_texts(li, DEFINITION@);
    if ds.len() == 0 {
        Seq::empty()
    } else {
        tidy_spec(ds[0], " "@)
    }
}

/// The usage examples of one `li` block, tidied, or nothing when it has
/// none.  The text parts of an example carry their own spacing, so they
/// are joined without a separator.
pub open spec fn examples_of(li: Seq<char>) -> Option<Seq<Seq<char>>> {
    let es = frag_texts(li, EXAMPLE@);
    if es.len() == 0 {
        None
    } else {
        Some(es.map_values(|ts: Seq<Seq<char>>| tidy_spec(ts, ""@)))
    }
}

/// Everything one `li` block of the definitions list yields.
pub open spec fn def_of(li: Seq<char>) -> DefView {
    DefView { definition: def_text_of(li), synonym: synonyms_of(li), examples: examples_of(li) }
}

/// The `li` blocks of the first definitions block of a word page.
pub open spec fn li_blocks(html: Seq<char>) -> Seq<Seq<char>> {
    frag_outer_htmls(doc_outer_htmls(html, DEFINITIONS@)[0], DEFINITION_BLCOK@)
}

/// The definitions a word page yields, one per `li` block of its first
/// definitions block, in document order.
pub open spec fn defs_of(html: Seq<char>) -> Seq<DefView> {
    if doc_outer_htmls(html, DEFINITIONS@).len() == 0 {
        Seq::empty()
    } else {
        li_blocks(html).map_values(|li: Seq<char>| def_of(li))
    }
}

/// Some `li` of the definitions list has no definition element: the
/// expected structure is absent, a content-shape failure.
pub open spec fn some_li_lacks_definition(html: Seq<char>) -> bool {
    exists|j: int|
        0 <= j < li_blocks(html).len() && #[trigger] frag_texts(
            li_blocks(html)[j],
            DEFINITION@,
        ).len() == 0
}

/// The definitions list cannot be read: a selector needed for it is
/// unacceptable, or some `li` lacks its definition element.
pub open spec fn definitions_parse_fails(html: Seq<char>) -> bool {
    let blocks = doc_outer_htmls(html, DEFINITIONS@);
    ||| !selector_ok(DEFINITIONS@)
    ||| (blocks.len() > 0 && (!selector_ok(DEFINITION_BLCOK@) || !selector_ok(DEFINITION@)
        || !selector_ok(EXAMPLE@)))
    ||| (blocks.len() > 0 && li_blocks(html).len() > 0 && !selector_ok(SYNONYM@))
    ||| (blocks.len() > 0 && some_li_lacks_definition(html))
}

/// The definitions of a word page: for each `li` of the first definitions
/// block its definition text, examples and synonyms; empty when the page
/// has no definitions block.  An `li` without a definition element is a
/// content-shape failure.
///
/// Fails exactly when [`definitions_parse_fails`] holds.
#[verifier::loop_isolation(false)]
pub fn parse_definitions(html: &str) -> (r: Result<Vec<Definition>, Error>)
    ensures
        match r {
            Ok(defs) => !definitions_parse_fails(html@) && def_views(defs@) == defs_of(html@),
            Err(e) => e is ParseHtmlSelector && definitions_parse_fails(html@),
        },
{
    let sel = match selector_parse(DEFINITIONS) {
        Some(s) => s,
        None => {
            return Err(Error::ParseHtmlSelector(String::from_str(DEFINITIONS)));
        },
    };
    let blocks = doc_select_htmls(html, &sel);
    proof {
        assert(views_of(blocks@).len() == blocks@.len());
    }
    if blocks.len() == 0 {
        let defs: Vec<Definition> = Vec::new();
        proof {
            assert(def_views(defs@) =~= defs_of(html@));
        }
        return Ok(defs);
    }
    let sel_li = match selector_parse(DEFINITION_BLCOK) {
        Some(s) => s,
        None => {
            return Err(Error::ParseHtmlSelector(String::from_str(DEFINITION_BLCOK)));
        },
    };
    let sel_def = match selector_parse(DEFINITION) {
        Some(s) => s,
        None => {
            return Err(Error::ParseHtmlSelector(String::from_str(DEFINITION)));
        },
    };
    let sel_ex = match selector_parse(EXAMPLE) {
        Some(s) => s,
        None => {
            return Err(Error::ParseHtmlSelector(String::from_str(EXAMPLE)));
        },
    };
    proof {
        assert(views_of(blocks@)[0] == blocks@[0]@);
    }
    let lis = frag_select_htmls(blocks[0].as_str(), &sel_li);
    let ghost lis_v = frag_outer_htmls(doc_outer_htmls(html@, DEFINITIONS@)[0], DEFINITION_BLCOK@);
    let ghost goal = lis_v.map_values(|li: Seq<char>| def_of(li));
    let mut defs: Vec<Definition> = Vec::new();
    let mut i: usize = 0;
    while i < lis.len()
        invariant
            lis_v == views_of(lis@),
            goal == lis_v.map_values(|li: Seq<char>| def_of(li)),
            selector_ok(SYNONYM@) || i == 0,
            i <= lis.len(),
            def_views(defs@) == goal.take(i as int),
            forall|jj: int|
                0 <= jj < i ==> #[trigger] frag_texts(lis_v[jj], DEFINITION@).len() > 0,
        decreases lis.len() - i,
    {
        proof {
            assert(views_of(lis@)[i as int] == lis@[i as int]@);
            assert(lis_v.len() == lis@.len());
            assert(goal.len() == lis_v.len());
        }
        let li = &lis[i];
        let ds = frag_select_texts(li.as_str(), &sel_def);
        proof {
            assert(views2_of(ds@).len() == ds@.len());
        }
        if ds.len() == 0 {
            proof {
                assert(lis_v == li_blocks(html@));
                assert(frag_texts(li_blocks(html@)[i as int], DEFINITION@).len() == 0);
                assert(some_li_lacks_definition(html@));
            }
            return Err(Error::ParseHtmlSelector(String::from_str(DEFINITION)));
        }
        proof {
            assert(views2_of(ds@)[0] == views_of(ds@[0]@));
        }
        let def_text = tidy_text(&ds[0], " ");
        let es = frag_select_texts(li.as_str(), &sel_ex);
        let ghost es_v = frag_texts(li@, EXAMPLE@);
        let ghost ex_goal = es_v.map_values(|ts: Seq<Seq<char>>| tidy_spec(ts, ""@));
        let examples = if es.len() > 0 {
            let mut exs: Vec<String> = Vec::new();
            let mut j: usize = 0;
            while j < es.len()
                invariant
                    es_v == views2_of(es@),
                    ex_goal == es_v.map_values(|ts: Seq<Seq<char>>| tidy_spec(ts, ""@)),
                    j <= es.len(),
                    views_of(exs@) == ex_goal.take(j as int),
                decreases es.len() - j,
            {
                proof {
                    assert(views2_of(es@)[j as int] == views_of(es@[j as int]@));
                    assert(es_v.len() == es@.len());
                    assert(ex_goal.len() == es_v.len());
                }
                let e = tidy_text(&es[j], "");
                exs.push(e);
                proof {
                    assert(ex_goal.take(j as int).len() == j);
                    assert(views_of(exs@) =~= ex_goal.take(j + 1));
                }
                j += 1;
            }
            proof {
                assert(es_v.len() == es@.len());
                assert(ex_goal.take(es@.len() as int) =~= ex_goal);
            }
            Some(exs)
        } else {
            proof {
                assert(es_v.len() == es@.len());
            }
            None
        };
        let synonym = match parse_synonym(li.as_str()) {
            Ok(syn) => syn,
            Err(e) => {
                proof {
                    assert(lis_v == li_blocks(html@));
                    assert(li_blocks(html@).len() > 0);
                }
                return Err(e);
            },
        };
        let mut def = Definition::new();
        def.set_definition(def_text);
        def.set_examples(examples);
        def.set_synonym(synonym);
        defs.push(def);
        proof {
            assert(goal.take(i as int).len() == i);
            assert(goal.take(i + 1)[i as int] == def_of(lis_v[i as int]));
            assert(def@ == def_of(lis_v[i as int]));
            assert(def_views(defs@) =~= goal.take(i + 1));
        }
        i += 1;
    }
    proof {
        assert(lis_v.len() == lis@.len());
        assert(goal.take(lis@.len() as int) =~= goal);
        assert(lis_v == li_blocks(html@));
        assert(def_views(defs@) == defs_of(html@));
        assert(!some_li_lacks_definition(html@)) by {
            assert(forall|j: int|
                0 <= j < li_blocks(html@).len() ==> #[trigger] frag_texts(
                    li_blocks(html@)[j],
                    DEFINITION@,
                ).len() > 0);
        }
    }
    Ok(defs)
}

/// The record a word page yields: the word area and the definitions
/// applied to a fresh record for `word`.
///
/// Fails exactly when the word area or the definitions list cannot be
/// read from the page.
pub fn vocabulary_from_html(word: String, html: &str) -> (r: Result<Vocabulary, Error>)
    ensures
        match r {
            Ok(vocab) => {
                &&& vocab@.word == word@
                &&& !word_area_parse_fails(html@)
                &&& !definitions_parse_fails(html@)
                &&& vocab@.word_area == area_of(html@)
                &&& vocab@.definitions == defs_of(html@)
            },
            Err(e) => {
                &&& e is ParseHtmlSelector
                &&& (word_area_parse_fails(html@) || definitions_parse_fails(html@))
            },
        },
{
    let mut vocab = Vocabulary::new(word);
    let area = match parse_word_area(html) {
        Ok(a) => a,
        Err(e) => {
            return Err(e);
        },
    };
    let defs = match parse_definitions(html) {
        Ok(d) => d,
        Err(e) => {
            return Err(e);
        },
    };
    vocab.set_word_area(area);
    vocab.set_definitions(defs);
    Ok(vocab)
}

} // verus!
