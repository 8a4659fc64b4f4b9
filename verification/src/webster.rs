//! Records of the merriam-webster.com dictionary and the parser that
//! reads the related-phrases block of its word pages.

use crate::error::Error;
use crate::scrape::{
    doc_outer_htmls, doc_select_htmls, frag_select_texts, frag_texts, selector_ok, selector_parse,
};
use crate::text::{join_with, opt_views, spec_join, views2_of, views_of};
use vstd::prelude::*;

verus! {

/// Prefix of a word page's address; the word follows it.
pub const DICT: &'static str = "https://www.merriam-webster.com/dictionary/";

/// Selector for the related-phrases block of a word page.
pub const PHRASE_BLOCK: &'static str = r#"div[class="related-phrases-list-container-xs"]"#;

/// The ghost value of one definition of a word page.
pub struct WebDefView {
    pub definition: Seq<char>,
    pub examples: Option<Seq<Seq<char>>>,
}

/// One sense of a word: its definition and optional usage examples.
#[derive(Debug, Default, Clone, PartialEq, Eq)]
pub struct Definition {
    definition: String,
    examples: Option<Vec<String>>,
}

impl View for Definition {
    type V = WebDefView;

    closed spec fn view(&self) -> WebDefView {
        WebDefView {
            definition: self.definition@,
            examples: crate::text::opt_views(self.examples),
        }
    }
}

impl Definition {
    /// A definition with nothing set yet.
    pub fn new() -> (r: Definition)
        ensures
            r@ == (WebDefView { definition: Seq::<char>::empty(), examples: None }),
    {
        Definition { definition: String::new(), examples: None }
    }

    pub fn set_definition(&mut self, definition: String)
        ensures
            final(self)@ == (WebDefView { definition: definition@, ..old(self)@ }),
    {
        self.definition = definition;
    }

    pub fn set_examples(&mut self, examples: Option<Vec<String>>)
        ensures
            final(self)@ == (WebDefView { examples: opt_views(examples), ..old(self)@ }),
    {
        self.examples = examples;
    }

    pub fn definition(&self) -> (r: &str)
        ensures
            r@ == self@.definition,
    {
        self.definition.as_str()
    }

    pub fn examples(&self) -> (r: Option<&Vec<String>>)
        ensures
            match r {
                Some(v) => self@.examples == Some(views_of(v@)),
                None => self@.examples is None,
            },
    {
        self.examples.as_ref()
    }
}

/// The ghost value of one phrase entry.
pub struct PhraseView {
    pub entry: Seq<char>,
    pub definitions: Seq<Seq<char>>,
}

/// One phrase associated with a word, with its definitions.
#[derive(Debug, Default, Clone, PartialEq, Eq)]
pub struct Phrase {
    entry: String,
    definitions: Vec<String>,
}

impl View for Phrase {
    type V = PhraseView;

    closed spec fn view(&self) -> PhraseView {
        PhraseView { entry: self.entry@, definitions: views_of(self.definitions@) }
    }
}

impl Phrase {
    /// A phrase with nothing set yet.
    pub fn new() -> (r: Phrase)
        ensures
            r@.entry == Seq::<char>::empty(),
            r@.definitions =~= Seq::<Seq<char>>::empty(),
    {
        Phrase { entry: String::new(), definitions: Vec::new() }
    }
}

/// The ghost values of a sequence of definitions.
pub open spec fn web_def_views(ds: Seq<Definition>) -> Seq<WebDefView> {
    ds.map_values(|d: Definition| d@)
}

/// The ghost values of an optional vector of phrases.
pub open spec fn opt_phrase_views(o: Option<Vec<Phrase>>) -> Option<Seq<PhraseView>> {
    match o {
        Some(v) => Some(v@.map_values(|p: Phrase| p@)),
        None => None,
    }
}

/// The ghost value of a whole word record.
pub struct WebsterView {
    pub word: Seq<char>,
    pub definitions: Seq<WebDefView>,
    pub phrases: Option<Seq<PhraseView>>,
}

/// One word of the merriam-webster dictionary.
#[derive(Debug, Default, Clone)]
pub struct Webster {
    word: String,
    definitions: Vec<Definition>,
    phrases: Option<Vec<Phrase>>,
}

impl View for Webster {
    type V = WebsterView;

    closed spec fn view(&self) -> WebsterView {
        WebsterView {
            word: self.word@,
            definitions: web_def_views(self.definitions@),
            phrases: opt_phrase_views(self.phrases),
        }
    }
}

impl Webster {
    /// A record for `word` with no definitions or phrases yet.
    pub fn new(word: String) -> (r: Webster)
        ensures
            r@.word == word@,
            r@.definitions =~= Seq::<WebDefView>::empty(),
            r@.phrases is None,
    {
        Webster { word, definitions: Vec::new(), phrases: None }
    }

    pub fn set_definitions(&mut self, definitions: Vec<Definition>)
        ensures
            final(self)@ == (WebsterView {
                definitions: web_def_views(definitions@),
                ..old(self)@
            }),
    {
        self.definitions = definitions;
    }

    pub fn set_phrases(&mut self, phrases: Option<Vec<Phrase>>)
        ensures
            final(self)@ == (WebsterView { phrases: opt_phrase_views(phrases), ..old(self)@ }),
    {
        self.phrases = phrases;
    }

    pub fn word(&self) -> (r: &str)
        ensures
            r@ == self@.word,
    {
        self.word.as_str()
    }

    pub fn definitions(&self) -> (r: &Vec<Definition>)
        ensures
            web_def_views(r@) == self@.definitions,
    {
        &self.definitions
    }

    pub fn phrases(&self) -> (r: Option<&Vec<Phrase>>)
        ensures
            match r {
                Some(v) => self@.phrases == Some(v@.map_values(|p: Phrase| p@)),
                None => self@.phrases is None,
            },
    {
        self.phrases.as_ref()
    }
}

/// The ghost value of one phrase card.
pub struct TView {
    pub item: Seq<char>,
    pub phrases: Seq<char>,
}

/// A word beside the flattened text of its related phrases.
#[derive(Debug, Default, Clone, PartialEq, Eq)]
pub struct T {
    item: String,
    phrases: String,
}

impl View for T {
    type V = TView;

    closed spec fn view(&self) -> TView {
        TView { item: self.item@, phrases: self.phrases@ }
    }
}

impl T {
    /// A card for `item` with no phrase text yet.
    pub fn new(item: String) -> (r: T)
        ensures
            r@.item == item@,
            r@.phrases == Seq::<char>::empty(),
    {
        T { item, phrases: String::new() }
    }

    pub fn set_phrases(&mut self, phrases: String)
        ensures
            final(self)@ == (TView { phrases: phrases@, ..old(self)@ }),
    {
        self.phrases = phrases;
    }

    pub fn item(&self) -> (r: &str)
        ensures
            r@ == self@.item,
    {
        self.item.as_str()
    }

    pub fn phrases(&self) -> (r: &str)
        ensures
            r@ == self@.phrases,
    {
        self.phrases.as_str()
    }
}

/// The phrases of a word page: the text of each link in the first
/// related-phrases block, words joined with single spaces; nothing when
/// the page has no such block or the block has no links.
pub open spec fn phrases_of(html: Seq<char>) -> Option<Seq<Seq<char>>> {
    let bs = doc_outer_htmls(html, PHRASE_BLOCK@);
    if bs.len() == 0 {
        None
    } else {
        let ts = frag_texts(bs[0], "a"@);
        if ts.len() == 0 {
            None
        } else {
            Some(ts.map_values(|t: Seq<Seq<char>>| spec_join(t, " "@)))
        }
    }
}

/// The related-phrases block cannot be read: a selector needed for it
/// is unacceptable.
pub open spec fn phrase_parse_fails(html: Seq<char>) -> bool {
    ||| !selector_ok(PHRASE_BLOCK@)
    ||| (doc_outer_htmls(html, PHRASE_BLOCK@).len() > 0 && !selector_ok("a"@))
}

/// The related phrases of a word page, in document order, or nothing
/// when the page carries none.
///
/// Fails exactly when [`phrase_parse_fails`] holds.
#[verifier::loop_isolation(false)]
pub fn parse_phrase(html: &str) -> (r: Result<Option<Vec<String>>, Error>)
    ensures
        match r {
            Ok(ret) => !phrase_parse_fails(html@) && opt_views(ret) == phrases_of(html@),
            Err(e) => e is ParseHtmlSelector && phrase_parse_fails(html@),
        },
{
    let sel = match selector_parse(PHRASE_BLOCK) {
        Some(s) => s,
        None => {
            return Err(Error::ParseHtmlSelector(String::from_str(PHRASE_BLOCK)));
        },
    };
    let blocks = doc_select_htmls(html, &sel);
    proof {
        assert(views_of(blocks@).len() == blocks@.len());
    }
    if blocks.len() == 0 {
        return Ok(None);
    }
    let sel_a = match selector_parse("a") {
        Some(s) => s,
        None => {
            return Err(Error::ParseHtmlSelector(String::from_str("a")));
        },
    };
    proof {
        assert(views_of(blocks@)[0] == blocks@[0]@);
    }
    let texts = frag_select_texts(blocks[0].as_str(), &sel_a);
    let ghost ts = frag_texts(doc_outer_htmls(html@, PHRASE_BLOCK@)[0], "a"@);
    let ghost goal = ts.map_values(|t: Seq<Seq<char>>| spec_join(t, " "@));
    let mut phrases: Vec<String> = Vec::new();
    let mut i: usize = 0;
    while i < texts.len()
        invariant
            ts == views2_of(texts@),
            goal == ts.map_values(|t: Seq<Seq<char>>| spec_join(t, " "@)),
            i <= texts.len(),
            views_of(phrases@) == goal.take(i as int),
        decreases texts.len() - i,
    {
        proof {
            assert(views2_of(texts@)[i as int] == views_of(texts@[i as int]@));
            assert(ts.len() == texts@.len());
            assert(goal.len() == ts.len());
        }
        let pr = join_with(&texts[i], " ");
        phrases.push(pr);
        proof {
            assert(goal.take(i as int).len() == i);
            assert(views_of(phrases@) =~= goal.take(i + 1));
        }
        i += 1;
    }
    proof {
        assert(ts.len() == texts@.len());
        assert(goal.take(texts@.len() as int) =~= goal);
    }
    if phrases.len() == 0 {
        Ok(None)
    } else {
        Ok(Some(phrases))
    }
}

/// The phrase text of a word page for one card: the phrases joined with
/// newlines, or the empty text when the page has none.
///
/// Fails exactly when [`phrase_parse_fails`] holds.
pub fn phrases_text(html: &str) -> (r: Result<String, Error>)
    ensures
        match r {
            Ok(t) => !phrase_parse_fails(html@) && t@ == match phrases_of(html@) {
                Some(ps) => spec_join(ps, "\n"@),
                None => Seq::<char>::empty(),
            },
            Err(e) => e is ParseHtmlSelector && phrase_parse_fails(html@),
        },
{
    let phr = match parse_phrase(html) {
        Ok(p) => p,
        Err(e) => {
            return Err(e);
        },
    };
    match phr {
        Some(v) => Ok(join_with(&v, "\n")),
        None => Ok(String::new()),
    }
}

} // verus!
