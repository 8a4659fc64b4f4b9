//! Records of the zdic.net chengyu dictionary and the parsers that read
//! its entry pages.
//!
//! An entry page holds the pinyin in a `span` of class `dicpy`, and a
//! definitions block whose `p` elements each carry one marked field, such
//! as `【解释】` for the meaning or `【出处】` for the source.

use crate::error::Error;
use crate::scrape::{
    doc_outer_htmls, doc_select_htmls, doc_select_texts, doc_texts, frag_select_texts, frag_texts,
    selector_ok, selector_parse,
};
use crate::text::{contains_sub, has_sub, opt_view, remove_sub_all, spec_remove_sub, views2_of, views_of};
use vstd::prelude::*;

verus! {

/// Selector for the pinyin element of an entry page.
pub const PINYIN: &'static str = r#"span[class="dicpy"]"#;

/// Selector for the definitions block of an entry page.
pub const DEFINITIONS: &'static str = r#"div[class="content definitions cnr"]"#;

/// Prefix of an entry page's address; the encoded entry follows it.
pub const PREFIX_URL: &'static str = "https://www.zdic.net/hans/";

/// The ghost value of a chengyu record: each field as its characters.
pub struct CyView {
    pub pinyin: Seq<char>,
    pub entry: Seq<char>,
    pub source: Option<Seq<char>>,
    pub meaning: Option<Seq<char>>,
    pub example: Option<Seq<char>>,
    pub synonym: Option<Seq<char>>,
    pub antonym: Option<Seq<char>>,
}

/// One chengyu of the handian dictionary.
#[derive(Debug, Clone)]
pub struct HanDianCY {
    pinyin: String,
    entry: String,
    /// 出处
    source: Option<String>,
    /// 解释
    meaning: Option<String>,
    example: Option<String>,
    /// 近义词
    synonym: Option<String>,
    /// 反义词
    antonym: Option<String>,
}

impl View for HanDianCY {
    type V = CyView;

    closed spec fn view(&self) -> CyView {
        CyView {
            pinyin: self.pinyin@,
            entry: self.entry@,
            source: opt_view(self.source),
            meaning: opt_view(self.meaning),
            example: opt_view(self.example),
            synonym: opt_view(self.synonym),
            antonym: opt_view(self.antonym),
        }
    }
}

/// A fresh record for `entry`: no field set but the entry itself.
pub open spec fn fresh_cy(entry: Seq<char>) -> CyView {
    CyView {
        pinyin: Seq::empty(),
        entry: entry,
        source: None,
        meaning: None,
        example: None,
        synonym: None,
        antonym: None,
    }
}

/// One definition block applied to a record: each marked field the block
/// holds is set to the block with the marker removed.
pub open spec fn apply_block(v: CyView, b: Seq<char>) -> CyView {
    let v1 = if has_sub(b, "解释"@) {
        CyView { meaning: Some(spec_remove_sub(b, "【解释】"@)), ..v }
    } else {
        v
    };
    let v2 = if has_sub(b, "【出处】"@) {
        CyView { source: Some(spec_remove_sub(b, "【出处】"@)), ..v1 }
    } else {
        v1
    };
    let v3 = if has_sub(b, "【示例】"@) {
        CyView { example: Some(spec_remove_sub(b, "【示例】"@)), ..v2 }
    } else {
        v2
    };
    let v4 = if has_sub(b, "【反义词】"@) {
        CyView { antonym: Some(spec_remove_sub(b, "【反义词】"@)), ..v3 }
    } else {
        v3
    };
    if has_sub(b, "【近义词】"@) {
        CyView { synonym: Some(spec_remove_sub(b, "【近义词】"@)), ..v4 }
    } else {
        v4
    }
}

/// The definition blocks applied in order: later blocks overwrite.
pub open spec fn apply_blocks(v: CyView, blocks: Seq<Seq<char>>) -> CyView
    decreases blocks.len(),
{
    if blocks.len() == 0 {
        v
    } else {
        apply_block(apply_blocks(v, blocks.drop_last()), blocks.last())
    }
}

impl HanDianCY {
    /// A record for `entry` with no field set yet.
    pub fn new(entry: String) -> (r: HanDianCY)
        ensures
            r@ == fresh_cy(entry@),
    {
        HanDianCY {
            pinyin: String::new(),
            entry,
            source: None,
            meaning: None,
            example: None,
            synonym: None,
            antonym: None,
        }
    }

    pub fn set_pinyin(&mut self, pinyin: String)
        ensures
            final(self)@ == (CyView { pinyin: pinyin@, ..old(self)@ }),
    {
        self.pinyin = pinyin;
    }

    pub fn set_source(&mut self, source: Option<String>)
        ensures
            final(self)@ == (CyView { source: opt_view(source), ..old(self)@ }),
    {
        self.source = source;
    }

    pub fn set_meaning(&mut self, meaning: Option<String>)
        ensures
            final(self)@ == (CyView { meaning: opt_view(meaning), ..old(self)@ }),
    {
        self.meaning = meaning;
    }

    pub fn set_example(&mut self, example: Option<String>)
        ensures
            final(self)@ == (CyView { example: opt_view(example), ..old(self)@ }),
    {
        self.example = example;
    }

    pub fn set_synonym(&mut self, synonym: Option<String>)
        ensures
            final(self)@ == (CyView { synonym: opt_view(synonym), ..old(self)@ }),
    {
        self.synonym = synonym;
    }

    pub fn set_antonym(&mut self, antonym: Option<String>)
        ensures
            final(self)@ == (CyView { antonym: opt_view(antonym), ..old(self)@ }),
    {
        self.antonym = antonym;
    }

    /// Apply the definition blocks of an entry page to this record, in
    /// order: each block sets the fields whose markers it carries.
    pub fn set_definitions(&mut self, block_str: Vec<String>)
        ensures
            final(self)@ == apply_blocks(old(self)@, views_of(block_str@)),
    {
        let ghost bv = views_of(block_str@);
        let mut i: usize = 0;
        while i < block_str.len()
            invariant
                bv == views_of(block_str@),
                i <= block_str.len(),
                self@ == apply_blocks(old(self)@, bv.take(i as int)),
            decreases block_str.len() - i,
        {
            let b = &block_str[i];
            proof {
                assert(bv[i as int] == block_str@[i as int]@);
            }
            if contains_sub(b.as_str(), "解释") {
                let r = remove_sub_all(b.as_str(), "【解释】");
                self.set_meaning(Some(r));
            }
            if contains_sub(b.as_str(), "【出处】") {
                let r = remove_sub_all(b.as_str(), "【出处】");
                self.set_source(Some(r));
            }
            if contains_sub(b.as_str(), "【示例】") {
                let r = remove_sub_all(b.as_str(), "【示例】");
                self.set_example(Some(r));
            }
            if contains_sub(b.as_str(), "【反义词】") {
                let r = remove_sub_all(b.as_str(), "【反义词】");
                self.set_antonym(Some(r));
            }
            if contains_sub(b.as_str(), "【近义词】") {
                let r = remove_sub_all(b.as_str(), "【近义词】");
                self.set_synonym(Some(r));
            }
            proof {
                assert(bv.take(i + 1).drop_last() =~= bv.take(i as int));
                assert(bv.take(i + 1).last() == bv[i as int]);
                assert(self@ == apply_block(apply_blocks(old(self)@, bv.take(i as int)), bv[
                    i as int]));
            }
            i += 1;
        }
        proof {
            assert(bv.take(block_str@.len() as int) =~= bv);
        }
    }

    pub fn pinyin(&self) -> (r: &str)
        ensures
            r@ == self@.pinyin,
    {
        self.pinyin.as_str()
    }

    pub fn entry(&self) -> (r: &str)
        ensures
            r@ == self@.entry,
    {
        self.entry.as_str()
    }

    pub fn example(&self) -> (r: Option<&String>)
        ensures
            match r {
                Some(m) => self@.example == Some(m@),
                None => self@.example is None,
            },
    {
        self.example.as_ref()
    }

    pub fn source(&self) -> (r: Option<&String>)
        ensures
            match r {
                Some(m) => self@.source == Some(m@),
                None => self@.source is None,
            },
    {
        self.source.as_ref()
    }

    pub fn meaning(&self) -> (r: Option<&String>)
        ensures
            match r {
                Some(m) => self@.meaning == Some(m@),
                None => self@.meaning is None,
            },
    {
        self.meaning.as_ref()
    }

    pub fn synonym(&self) -> (r: Option<&String>)
        ensures
            match r {
                Some(m) => self@.synonym == Some(m@),
                None => self@.synonym is None,
            },
    {
        self.synonym.as_ref()
    }

    pub fn antonym(&self) -> (r: Option<&String>)
        ensures
            match r {
                Some(m) => self@.antonym == Some(m@),
                None => self@.antonym is None,
            },
    {
        self.antonym.as_ref()
    }
}

/// The records a batch of queries produced.
#[derive(Debug)]
pub struct HanDianCYCollection {
    chengyucol: Vec<HanDianCY>,
}

impl View for HanDianCYCollection {
    type V = Seq<HanDianCY>;

    closed spec fn view(&self) -> Seq<HanDianCY> {
        self.chengyucol@
    }
}

impl HanDianCYCollection {
    pub fn new(chengyucol: Vec<HanDianCY>) -> (r: HanDianCYCollection)
        ensures
            r@ == chengyucol@,
    {
        HanDianCYCollection { chengyucol }
    }

    pub fn chengyucol(&self) -> (r: &[HanDianCY])
        ensures
            r@ == self@,
    {
        self.chengyucol.as_slice()
    }
}

/// The pinyin element cannot be read: the selector is unacceptable,
/// nothing matches it, or the first match has no text.
pub open spec fn pinyin_parse_fails(html: Seq<char>, selector: Seq<char>) -> bool {
    ||| !selector_ok(selector)
    ||| doc_texts(html, selector).len() == 0
    ||| doc_texts(html, selector)[0].len() == 0
}

/// The pinyin text of an entry page: the first text part of the first
/// element the selector matches.
///
/// Fails exactly when [`pinyin_parse_fails`] holds.
pub fn parse_pinyin(html: &str, selector: &str) -> (r: Result<String, Error>)
    ensures
        match r {
            Ok(py) => {
                &&& !pinyin_parse_fails(html@, selector@)
                &&& py@ == doc_texts(html@, selector@)[0][0]
            },
            Err(e) => e is ParseHtmlSelector && pinyin_parse_fails(html@, selector@),
        },
{
    let sel = match selector_parse(selector) {
        Some(s) => s,
        None => {
            return Err(Error::ParseHtmlSelector(String::from_str(selector)));
        },
    };
    let texts = doc_select_texts(html, &sel);
    proof {
        assert(views2_of(texts@).len() == texts@.len());
    }
    if texts.len() == 0 {
        return Err(Error::ParseHtmlSelector(String::from_str("pinyin item not found")));
    }
    let first = &texts[0];
    proof {
        assert(views2_of(texts@)[0] == views_of(texts@[0]@));
        assert(views_of(first@).len() == first@.len());
    }
    if first.len() == 0 {
        return Err(Error::ParseHtmlSelector(String::from_str("pinyin item not found")));
    }
    proof {
        assert(views_of(first@)[0] == first@[0]@);
    }
    Ok(first[0].clone())
}

/// The first text part of each `p` element, or the empty text for a `p`
/// with no text at all.
pub open spec fn firsts_of(tss: Seq<Seq<Seq<char>>>) -> Seq<Seq<char>> {
    tss.map_values(
        |ts: Seq<Seq<char>>|
            if ts.len() > 0 {
                ts[0]
            } else {
                Seq::<char>::empty()
            },
    )
}

/// The definitions block cannot be read: a selector is unacceptable or
/// nothing matches the block selector.
pub open spec fn definition_block_parse_fails(html: Seq<char>, selector: Seq<char>) -> bool {
    ||| !selector_ok(selector)
    ||| doc_outer_htmls(html, selector).len() == 0
    ||| !selector_ok("p"@)
}

/// The definition blocks of an entry page: the first text part of each
/// `p` element inside the first element the selector matches.
///
/// Fails exactly when [`definition_block_parse_fails`] holds.
pub fn parse_definttion_block(html: &str, selector: &str) -> (r: Result<Vec<String>, Error>)
    ensures
        match r {
            Ok(block) => {
                &&& !definition_block_parse_fails(html@, selector@)
                &&& views_of(block@) == firsts_of(
                    frag_texts(doc_outer_htmls(html@, selector@)[0], "p"@),
                )
            },
            Err(e) => e is ParseHtmlSelector && definition_block_parse_fails(html@, selector@),
        },
{
    let sel = match selector_parse(selector) {
        Some(s) => s,
        None => {
            return Err(Error::ParseHtmlSelector(String::from_str(selector)));
        },
    };
    let blocks = doc_select_htmls(html, &sel);
    proof {
        assert(views_of(blocks@).len() == blocks@.len());
    }
    if blocks.len() == 0 {
        return Err(Error::ParseHtmlSelector(String::from_str("div element not found")));
    }
    let sel_p = match selector_parse("p") {
        Some(s) => s,
        None => {
            return Err(Error::ParseHtmlSelector(String::from_str("p")));
        },
    };
    proof {
        assert(views_of(blocks@)[0] == blocks@[0]@);
    }
    let texts = frag_select_texts(blocks[0].as_str(), &sel_p);
    let ghost tss = frag_texts(doc_outer_htmls(html@, selector@)[0], "p"@);
    let mut block: Vec<String> = Vec::new();
    let mut i: usize = 0;
    while i < texts.len()
        invariant
            tss == views2_of(texts@),
            i <= texts.len(),
            views_of(block@) == firsts_of(tss).take(i as int),
        decreases texts.len() - i,
    {
        proof {
            assert(views2_of(texts@)[i as int] == views_of(texts@[i as int]@));
        }
        let ts = &texts[i];
        if ts.len() > 0 {
            proof {
                assert(views_of(ts@)[0] == ts@[0]@);
            }
            block.push(ts[0].clone());
        } else {
            block.push(String::new());
        }
        proof {
            assert(tss.len() == texts@.len());
            assert(firsts_of(tss).len() == tss.len());
            assert(firsts_of(tss).take(i as int).len() == i);
            assert(views_of(block@).len() == block@.len());
            assert(block@.len() == i + 1);
            assert(views_of(block@)[i as int] == block@[i as int]@);
            assert(firsts_of(tss).take(i + 1)[i as int] == firsts_of(tss)[i as int]);
            assert(views_of(block@)[i as int] == firsts_of(tss)[i as int]);
            assert(forall|t: int|
                0 <= t < i ==> views_of(block@)[t] == #[trigger] firsts_of(tss).take(i + 1)[t]);
            assert(views_of(block@) =~= firsts_of(tss).take(i + 1));
        }
        i += 1;
    }
    proof {
        assert(firsts_of(tss).take(texts@.len() as int) =~= firsts_of(tss));
    }
    Ok(block)
}

/// The record an entry page yields: the pinyin element's first text, and
/// the definition blocks applied to a fresh record for `entry`.
///
/// Fails exactly when the pinyin or the definitions block cannot be
/// read from the page.
pub fn chengyu_from_html(entry: String, html: &str) -> (r: Result<HanDianCY, Error>)
    ensures
        match r {
            Ok(cy) => {
                &&& !pinyin_parse_fails(html@, PINYIN@)
                &&& !definition_block_parse_fails(html@, DEFINITIONS@)
                &&& cy@ == apply_blocks(
                    (CyView { pinyin: doc_texts(html@, PINYIN@)[0][0], ..fresh_cy(entry@) }),
                    firsts_of(frag_texts(doc_outer_htmls(html@, DEFINITIONS@)[0], "p"@)),
                )
            },
            Err(e) => {
                &&& e is ParseHtmlSelector
                &&& (pinyin_parse_fails(html@, PINYIN@) || definition_block_parse_fails(
                    html@,
                    DEFINITIONS@,
                ))
            },
        },
{
    let mut cy = HanDianCY::new(entry);
    let py = match parse_pinyin(html, PINYIN) {
        Ok(py) => py,
        Err(e) => {
            return Err(e);
        },
    };
    cy.set_pinyin(py);
    let def_block = match parse_definttion_block(html, DEFINITIONS) {
        Ok(b) => b,
        Err(e) => {
            return Err(e);
        },
    };
    cy.set_definitions(def_block);
    Ok(cy)
}

} // verus!
