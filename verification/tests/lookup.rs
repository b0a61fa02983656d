use bing_dict::{extract_description, parse, translate, Error, Paraphrase};

const MARKER: &str = "必应词典为您提供";
const AFTER_QUERY: &str = "的释义，";

fn description(carried_query: &str, body: &str) -> Vec<u8> {
    format!("{MARKER}{carried_query}{AFTER_QUERY}{body}").into_bytes()
}

fn page(description: &[u8]) -> Vec<u8> {
    let mut page = b"<!DOCTYPE html><html><head><title>dict</title>".to_vec();
    page.extend_from_slice(b"<meta name=\"description\" content=\"");
    page.extend_from_slice(description);
    page.extend_from_slice(b"\" /><meta name=\"other\" content=\"x\" /></head><body></body></html>");
    page
}

fn strings(items: &[&str]) -> Vec<String> {
    items.iter().map(|s| s.to_string()).collect()
}

const DICTIONARY_BODY: &str = "美[ˈdɪkʃəˌneri]，英[ˈdɪkʃ(ə)n(ə)ri]，n. 字典；词典；辞书； 网络释义： 辞典；字典中管理；数据字典； ";

const CIDIAN_BODY: &str =
    "拼音[cí diǎn]，na. dictionary; lexicon； 网络释义： Thesaurus; Dictionaries; Word dictionary；";

#[test]
fn chi_to_eng() {
    let page = page(&description("词典", CIDIAN_BODY));
    assert!(translate("词典", &page).unwrap().is_some());
}

#[test]
fn chi_to_eng_no_result() {
    let query = "没有在必应词典中找到结果";
    let page = page(&description(query, ""));
    assert!(translate(query, &page).unwrap().is_none());
}

#[test]
fn eng_to_chi() {
    let page = page(&description("dictionary", DICTIONARY_BODY));
    assert!(translate("dictionary", &page).unwrap().is_some());
}

#[test]
fn eng_to_chi_no_result() {
    let page = page(&description("yranoitcid", ""));
    assert!(translate("yranoitcid", &page).unwrap().is_none());
}

#[test]
fn page_without_description_is_a_page_error() {
    let page = b"<html><head><title>nothing here</title></head></html>";
    assert!(matches!(extract_description(page), Err(Error::PageError)));
    assert!(matches!(translate("dictionary", page), Err(Error::PageError)));
    assert!(matches!(extract_description(b""), Err(Error::PageError)));
}

#[test]
fn description_that_never_closes_is_a_page_error() {
    let page = b"<meta name=\"description\" content=\"no end in sight";
    assert!(matches!(extract_description(page), Err(Error::PageError)));
    let closed_before = b"\" /><meta name=\"description\" content=\"abc";
    assert!(matches!(extract_description(closed_before), Err(Error::PageError)));
}

#[test]
fn description_is_what_stands_between_the_tags() {
    let page = b"<head><meta name=\"description\" content=\"abc def\" /></head>";
    assert_eq!(extract_description(page).unwrap(), b"abc def");
}

#[test]
fn description_may_be_empty() {
    let page = b"<meta name=\"description\" content=\"\" />";
    assert_eq!(extract_description(page).unwrap(), b"");
}

#[test]
fn description_is_taken_from_the_first_tag_to_the_first_close() {
    let page = b"x<meta name=\"description\" content=\"one\" /><meta name=\"description\" content=\"two\" />";
    assert_eq!(extract_description(page).unwrap(), b"one");
}

#[test]
fn description_is_not_decoded() {
    let page = b"<meta name=\"description\" content=\"a &amp; b \xff\xfe\" />";
    assert_eq!(extract_description(page).unwrap(), b"a &amp; b \xff\xfe");
}

#[test]
fn dictionary_is_sorted_into_pronunciations_and_genders() {
    let found = parse("dictionary", &description("dictionary", DICTIONARY_BODY))
        .unwrap()
        .unwrap();
    assert_eq!(found.input, "dictionary");
    assert_eq!(
        found.pronunciations,
        strings(&["美[ˈdɪkʃəˌneri]", "英[ˈdɪkʃ(ə)n(ə)ri]"])
    );
    assert_eq!(
        found.genders,
        strings(&["n. 字典；词典；辞书", "网络释义： 辞典；字典中管理；数据字典"])
    );
    for p in &found.pronunciations {
        assert!(p.starts_with('英') || p.starts_with('美') || p.starts_with("拼音"));
    }
    for g in &found.genders {
        assert!(!g.ends_with('；'));
    }
}

#[test]
fn cidian_example() {
    let found = parse("词典", &description("词典", CIDIAN_BODY)).unwrap().unwrap();
    assert_eq!(found.input, "词典");
    assert_eq!(found.pronunciations, strings(&["拼音[cí diǎn]"]));
    assert_eq!(
        found.genders,
        strings(&[
            "na. dictionary; lexicon",
            "网络释义： Thesaurus; Dictionaries; Word dictionary"
        ])
    );
}

#[test]
fn no_entry_gives_none() {
    assert!(parse("yranoitcid", &description("yranoitcid", "")).unwrap().is_none());
    assert!(parse("yranoitcid", "词典".as_bytes()).unwrap().is_none());
    assert!(parse("yranoitcid", b"").unwrap().is_none());
}

#[test]
fn description_without_the_marker_gives_none() {
    let mut bytes = description("dictionary", DICTIONARY_BODY);
    bytes[0] = b'x';
    assert!(parse("dictionary", &bytes).unwrap().is_none());
    let long = "x".repeat(200);
    assert!(parse("dictionary", long.as_bytes()).unwrap().is_none());
}

#[test]
fn description_as_long_as_its_prefix_gives_none() {
    let exact = description("dictionary", "");
    assert_eq!(exact.len(), "dictionary".len() + 36);
    assert!(parse("dictionary", &exact).unwrap().is_none());
    let shorter = &exact[..exact.len() - 1];
    assert!(parse("dictionary", shorter).unwrap().is_none());
    let marker_only = MARKER.as_bytes();
    assert!(parse("dictionary", marker_only).unwrap().is_none());
}

#[test]
fn one_byte_beyond_the_prefix_is_read() {
    let found = parse("dictionary", &description("dictionary", "n")).unwrap().unwrap();
    assert!(found.pronunciations.is_empty());
    assert_eq!(found.genders, strings(&["n"]));
}

#[test]
fn prefix_counts_the_query_as_the_page_carries_it() {
    let found = parse("a&b<c>", &description("a&amp;b&lt;c&gt;", "n. 词"))
        .unwrap()
        .unwrap();
    assert_eq!(found.input, "a&b<c>");
    assert!(found.pronunciations.is_empty());
    assert_eq!(found.genders, strings(&["n. 词"]));
}

#[test]
fn prefix_length_is_that_of_the_query_in_bytes_and_thirty_six() {
    let bytes = description("词典", "英[x]");
    assert_eq!(bytes.len(), 6 + 36 + 6);
    let found = parse("词典", &bytes).unwrap().unwrap();
    assert_eq!(found.pronunciations, strings(&["英[x]"]));
    assert_eq!(found.genders, Vec::<String>::new());
}

#[test]
fn invalid_text_is_a_utf8_error() {
    let mut bytes = description("dictionary", "");
    bytes.extend_from_slice(b"n. \xff\xfe");
    assert!(matches!(parse("dictionary", &bytes), Err(Error::Utf8Error(_))));
    assert!(matches!(
        translate("dictionary", &page(&bytes)),
        Err(Error::Utf8Error(_))
    ));
}

#[test]
fn text_cut_inside_a_character_is_a_utf8_error() {
    let bytes = description("dictionary", "词");
    assert!(matches!(
        parse("dictionaryx", &bytes),
        Ok(None) | Err(Error::Utf8Error(_))
    ));
    let bytes = description("dictionary", "词典");
    assert!(matches!(parse("dictionaryx", &bytes), Err(Error::Utf8Error(_))));
}

#[test]
fn text_is_trimmed_before_it_is_read() {
    let found = parse("dictionary", &description("dictionary", " \u{3000}英[x]，n. 词\n\t "))
        .unwrap()
        .unwrap();
    assert_eq!(found.pronunciations, strings(&["英[x]"]));
    assert_eq!(found.genders, strings(&["n. 词"]));
}

#[test]
fn reading_twice_gives_equal_paraphrases() {
    let bytes = description("dictionary", DICTIONARY_BODY);
    let first = parse("dictionary", &bytes).unwrap().unwrap();
    let second = parse("dictionary", &bytes).unwrap().unwrap();
    assert_eq!(first.input, second.input);
    assert_eq!(first.pronunciations, second.pronunciations);
    assert_eq!(first.genders, second.genders);
}

#[test]
fn translate_reads_the_description_of_the_page() {
    let found = translate("词典", &page(&description("词典", CIDIAN_BODY)))
        .unwrap()
        .unwrap();
    let direct = Paraphrase::parse("词典", CIDIAN_BODY);
    assert_eq!(found.input, direct.input);
    assert_eq!(found.pronunciations, direct.pronunciations);
    assert_eq!(found.genders, direct.genders);
}

#[test]
fn utf8_error_converts_into_the_error() {
    let e = std::str::from_utf8(b"\xff").unwrap_err();
    assert!(matches!(Error::from(e), Error::Utf8Error(_)));
}
