use crawl_ins::error::Error;
use crawl_ins::handian::{chengyu_from_html, parse_definttion_block, parse_pinyin, HanDianCY, HanDianCYCollection, DEFINITIONS, PINYIN};
use crawl_ins::text::{contains_sub, remove_sub_all, trim};
use crawl_ins::utils::remove_escape_code;
use crawl_ins::vocabulary::{parse_definitions, parse_synonym, parse_word_area, Area, Definition};
use crawl_ins::webster::{parse_phrase, phrases_text};

#[test]
fn test_parse_pinyin() {
    let html = r#"<span class="dicpy">yù gài mí zhāng</span>  "#;
    let py = parse_pinyin(html, PINYIN).unwrap();

    assert_eq!("yù gài mí zhāng".to_string(), py)
}

#[test]
fn test_parse_word_area() {
    let html = r#"<div class="word-area">
<p class="short"><i>Happy</i> is a feeling of joy,....</p>
<p class="long"><i>Happy</i> hails from the Middle English word <i>hap</i>, meaning... </p>
 </div>"#;
    let a = parse_word_area(html).unwrap();
    let mut area = Area::new();
    area.set_long(Some(
        "Happy hails from the Middle English word hap, meaning...".into(),
    ));
    area.set_short(Some("Happy is a feeling of joy,....".into()));
    assert_eq!(area, a)
}

#[test]
fn test_parse_definitions() {
    let html = r#"
 <div class="word-definitions">

<li class="sense pos_a ... sord1" id="s101621">
<div class="definition">
<div title="adjective" name="s101621" class="pos-icon">adjective</div>
 marked by good fortune</div>

<div class="example">&#8220;a <strong>happy</strong> outcome&#8221;</div>

<dl class="instances">
<span class="detail">synonyms:</span>
<span><a href="/dictionary/felicitous" class="word">felicitous</a></span>
</dl>
<dl class="instances">
<span class="detail"></span>
<dd >
<a href="/dictionary/fortunate" class="word">fortunate</a>
<div class="definition">having unexpected good fortune</div>
</dd>
</dl>

</li>

<li class="sense pos_a ... sord1" id="s101621">
<div class="definition">
<div title="adjective" name="s102164" class="pos-icon">adjective</div>
enjoying or showing or marked by joy or pleasure</div>

<div class="example">&#8220;a <strong>happy</strong> smile&#8221;</div>
<div class="example">&#8220;spent many <strong>happy</strong> days on the beach&#8221;</div>
...
</li>
</div>


"#;
    let defs = parse_definitions(html).unwrap();

    let mut expected1 = Definition::new();
    let mut expected2 = Definition::new();
    let mut expected = vec![];
    expected1.set_definition("adjective  marked by good fortune".into());
    expected1.set_examples(Some(["“a happy outcome”".into()].to_vec()));
    expected1.set_synonym(Some(["felicitous".into(), "fortunate".into()].to_vec()));

    expected2.set_definition("adjective enjoying or showing or marked by joy or pleasure".into());
    expected2.set_examples(Some(
        [
            "“a happy smile”".into(),
            "“spent many happy days on the beach”".into(),
        ]
        .to_vec(),
    ));
    expected.push(expected1);
    expected.push(expected2);

    assert_eq!(defs, expected);
}

#[test]
fn test_parse_synonym() {
    let html = r#"
   <dl class="instances">
 <span class="detail">synonyms:</span>
 <span><a href="/dictionary/felicitous" class="word">felicitous</a></span>
 </dl>
 <dl class="instances">
 <span class="detail"></span>
 <dd >
 <a href="/dictionary/fortunate" class="word">fortunate</a>
 <div class="definition">having unexpected good fortune</div>
 </dd>
 </dl>
    "#;
    let ret = parse_synonym(html).unwrap();
    println!("{:?}", ret)
}

#[test]
fn parse_synonym_values() {
    let html = r#"<span><a href="/dictionary/felicitous" class="word">felicitous</a></span>
<a href="/dictionary/fortunate" class="word">fortunate</a>"#;
    let ret = parse_synonym(html).unwrap();
    assert_eq!(ret, Some(vec!["felicitous".to_string(), "fortunate".to_string()]));
}

#[test]
fn parse_synonym_none_without_links() {
    let ret = parse_synonym("<p>nothing here</p>").unwrap();
    assert_eq!(ret, None);
}

#[test]
fn parse_pinyin_missing_element() {
    let e = parse_pinyin("<p>no pinyin at all</p>", PINYIN).unwrap_err();
    assert!(matches!(e, Error::ParseHtmlSelector(_)));
}

#[test]
fn parse_pinyin_bad_selector() {
    let e = parse_pinyin("<p>x</p>", "[[").unwrap_err();
    assert!(matches!(e, Error::ParseHtmlSelector(_)));
}

#[test]
fn parse_definttion_block_splits_paragraphs() {
    let html = r#"<div class="content definitions cnr">
<h3>欲盖弥彰</h3><p>【解释】想掩盖坏事的真相，结果反而更明显地暴露出来。</p><p>【出处】《左传·昭公三十一年》</p><p>【反义词】相得益彰</p>
</div>"#;
    let block = parse_definttion_block(html, DEFINITIONS).unwrap();
    assert_eq!(
        block,
        vec![
            "【解释】想掩盖坏事的真相，结果反而更明显地暴露出来。".to_string(),
            "【出处】《左传·昭公三十一年》".to_string(),
            "【反义词】相得益彰".to_string(),
        ]
    );
}

#[test]
fn parse_definttion_block_missing_div() {
    let e = parse_definttion_block("<p>nothing</p>", DEFINITIONS).unwrap_err();
    assert!(matches!(e, Error::ParseHtmlSelector(_)));
}

#[test]
fn set_definitions_fills_fields() {
    let mut cy = HanDianCY::new("欲盖弥彰".to_string());
    cy.set_definitions(vec![
        "【解释】想掩盖坏事的真相。".to_string(),
        "【出处】《左传》".to_string(),
        "【反义词】相得益彰".to_string(),
    ]);
    assert_eq!(cy.entry(), "欲盖弥彰");
    assert_eq!(cy.meaning(), Some(&"想掩盖坏事的真相。".to_string()));
    assert_eq!(cy.source(), Some(&"《左传》".to_string()));
    assert_eq!(cy.antonym(), Some(&"相得益彰".to_string()));
    assert_eq!(cy.synonym(), None);
}

#[test]
fn chengyu_from_html_whole_page() {
    let html = r#"<html><body>
<span class="dicpy">yù gài mí zhāng</span>
<div class="content definitions cnr">
<h3>欲盖弥彰</h3><p>【解释】想掩盖坏事的真相。</p><p>【近义词】适得其反</p>
</div>
</body></html>"#;
    let cy = chengyu_from_html("欲盖弥彰".to_string(), html).unwrap();
    assert_eq!(cy.pinyin(), "yù gài mí zhāng");
    assert_eq!(cy.entry(), "欲盖弥彰");
    assert_eq!(cy.meaning(), Some(&"想掩盖坏事的真相。".to_string()));
    assert_eq!(cy.synonym(), Some(&"适得其反".to_string()));
    assert_eq!(cy.antonym(), None);
}

#[test]
fn chengyu_collection_keeps_records() {
    let cy = HanDianCY::new("火中取栗".to_string());
    let col = HanDianCYCollection::new(vec![cy]);
    assert_eq!(col.chengyucol().len(), 1);
    assert_eq!(col.chengyucol()[0].entry(), "火中取栗");
}

#[test]
fn remove_escape_code_strips_newlines_and_tabs() {
    assert_eq!(remove_escape_code("a\nb\tc"), "abc");
    assert_eq!(remove_escape_code("plain"), "plain");
    assert_eq!(remove_escape_code(""), "");
}

#[test]
fn trim_strips_surrounding_whitespace() {
    assert_eq!(trim("  padded words \n"), "padded words");
    assert_eq!(trim("solid"), "solid");
    assert_eq!(trim(" \t \n"), "");
}

#[test]
fn contains_sub_finds_patterns() {
    assert!(contains_sub("one two three", "two"));
    assert!(!contains_sub("one two three", "four"));
    assert!(contains_sub("短语【解释】含义", "解释"));
    assert!(contains_sub("anything", ""));
}

#[test]
fn remove_sub_all_removes_every_occurrence() {
    assert_eq!(remove_sub_all("aXbXc", "X"), "abc");
    assert_eq!(remove_sub_all("【解释】含义", "【解释】"), "含义");
    assert_eq!(remove_sub_all("none", "X"), "none");
    assert_eq!(remove_sub_all("aaa", "aa"), "a");
}

#[test]
fn parse_phrase_collects_links() {
    let html = r#"<div class="related-phrases-list-container-xs">
<a class="pb-4 pr-4 d-block" href="/dictionary/give%20way">give way</a>
<a class="pb-4 pr-4 d-block" href="/dictionary/give%20up">give up</a>
</div>"#;
    let phrases = parse_phrase(html).unwrap();
    assert_eq!(phrases, Some(vec!["give way".to_string(), "give up".to_string()]));
}

#[test]
fn parse_phrase_none_without_block() {
    assert_eq!(parse_phrase("<p>no phrases</p>").unwrap(), None);
}

#[test]
fn phrases_text_joins_with_newlines() {
    let html = r#"<div class="related-phrases-list-container-xs">
<a href="/dictionary/give%20way">give way</a>
<a href="/dictionary/give%20up">give up</a>
</div>"#;
    assert_eq!(phrases_text(html).unwrap(), "give way\ngive up");
    assert_eq!(phrases_text("<p>none</p>").unwrap(), "");
}

#[test]
fn parse_word_area_empty_page() {
    let a = parse_word_area("<p>none</p>").unwrap();
    assert_eq!(a, Area::new());
}

#[test]
fn parse_definitions_empty_page() {
    let defs = parse_definitions("<p>none</p>").unwrap();
    assert!(defs.is_empty());
}

#[test]
fn parse_definitions_rejects_li_without_definition() {
    // An li in the definitions list without a definition element is a
    // content-shape failure, not a silent empty definition.
    let html = r#"<div class="word-definitions">
<li class="sense"><div class="example">only an example here</div></li>
</div>"#;
    let e = parse_definitions(html).unwrap_err();
    assert!(matches!(e, Error::ParseHtmlSelector(_)));
}
