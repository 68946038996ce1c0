use gsp_ui::textutils::{
    parse_camel_case, parse_hashtag, read_vars, remove_markdown, remove_special_characters,
    trim_whitespace,
};

#[test]
fn test_parse_hashtag() {
    let result = parse_hashtag("#helloWorld");
    assert_eq!(result, "#hello World");
}

#[test]
fn test_parse_hashtag2() {
    let result = parse_hashtag("le #chat est #mignon");
    assert_eq!(result, "le #chat est #mignon");
}

#[test]
fn test_parse_hashtag_multiple_uppercase() {
    let result = parse_hashtag("#HTML5Test");
    assert_eq!(result, "#HTML5 Test");
}

#[test]
fn test_parse_hashtag_with_numbers() {
    let result = parse_hashtag("#CSS3Animation");
    assert_eq!(result, "#CSS3 Animation");
}

#[test]
fn test_parse_hashtag_multiple_words() {
    let result = parse_hashtag("#helloWorld and #goodbyeMoon");
    assert_eq!(result, "#hello World and #goodbye Moon");
}

#[test]
fn test_trim_whitespace() {
    let result = trim_whitespace("  a  b  c  ");
    assert_eq!(result, "a b c");
}

#[test]
fn test_remove_special_characters() {
    let result = remove_special_characters("𝐠𝐫𝐚𝐬 et 𝘪𝘵𝘢𝘭𝘪𝘤");
    assert_eq!(result, "gras et italic");
}

#[test]
fn test_remove_special_characters_with_alphabet() {
    let result = remove_special_characters("𝐀𝐚𝑨𝒂𝒜𝒶𝔸𝕒𝕬𝖆𝖠𝖺𝗔𝗮𝘈𝘢𝘼𝙖𝙰𝚊𝐴𝑎𝔄𝔞𝓐𝓪Ａａ🅰🅐");
    assert_eq!(result, "aaaaaaaaaaaaaaaaaaaaaaaaaaaaaa");
}

#[test]
fn test_remove_special_characters_with_alphabet_stylised() {
    let result = remove_special_characters("🅰🅱🅲🅳🅴🅵🅶🅷🅸🅹🅺🅻🅼🅽🅾🅿🆀🆁🆂🆃🆄🆅🆆🆇🆈🆉");
    assert_eq!(result, "abcdefghijklmnopqrstuvwxyz");

    let result = remove_special_characters("🅐🅑🅒🅓🅔🅕🅖🅗🅘🅙🅚🅛🅜🅝🅞🅟🅠🅡🅢🅣🅤🅥🅦🅧🅨🅩");
    assert_eq!(result, "abcdefghijklmnopqrstuvwxyz");
}

#[test]
fn test_remove_special_characters_with_numbers() {
    let result = remove_special_characters("𝟎𝟘𝟢𝟬𝟶");
    assert_eq!(result, "00000");
}

#[test]
fn test_replace_special_chars() {
    let result = remove_special_characters("С і І ѕ");
    assert_eq!(result, "C i I s");
}

#[test]
fn test_read_vars() {
    let result = read_vars("HelloWorld");
    assert_eq!(result, "Hello World");
}

#[test]
fn test_read_vars_snake_case() {
    let result = read_vars("hello_world");
    assert_eq!(result, "hello world");
}

#[test]
fn test_read_vars_kebab_case() {
    let result = read_vars("hello-world");
    assert_eq!(result, "hello world");
}

#[test]
fn test_remove_markdown() {
    let result = remove_markdown("**Hello** *World*");
    assert_eq!(result, "Hello World");
}

#[test]
fn test_parse_camel_case() {
    let result = parse_camel_case("HelloWorld");
    assert_eq!(result, "Hello World");
}

#[test]
fn test_parse_camel_case_acronym() {
    let result = parse_camel_case("HTML5Parser");
    assert_eq!(result, "HTML5 Parser");
}

// Laws on concrete values.

#[test]
fn trim_whitespace_is_idempotent() {
    let once = trim_whitespace("\t  un \n deux   trois ");
    assert_eq!(once, "un deux trois");
    assert_eq!(trim_whitespace(&once), once);
}

#[test]
fn trim_whitespace_of_blank_text_is_empty() {
    assert_eq!(trim_whitespace(""), "");
    assert_eq!(trim_whitespace(" \t\n "), "");
}

#[test]
fn remove_special_characters_is_idempotent() {
    let once = remove_special_characters("𝐠𝐫𝐚𝐬 « С » 𝟎");
    assert_eq!(remove_special_characters(&once), once);
}

#[test]
fn remove_special_characters_keeps_plain_text() {
    assert_eq!(remove_special_characters("plain text 123"), "plain text 123");
}

#[test]
fn remove_markdown_drops_every_marker_and_is_idempotent() {
    let once = remove_markdown("__a__ *b* ***c***");
    assert!(!once.contains('*') && !once.contains('_'));
    assert_eq!(remove_markdown(&once), once);
}

#[test]
fn read_vars_leaves_no_separator() {
    let result = read_vars("  my_var-name*x  ");
    assert!(!result.contains('_') && !result.contains('-') && !result.contains('*'));
    assert_eq!(result, trim_whitespace(&result));
}

#[test]
fn parse_camel_case_splits_words_but_not_acronyms() {
    assert_eq!(parse_camel_case("aBcD"), "a Bc D");
    assert_eq!(parse_camel_case("aB"), "a B");
    assert_eq!(parse_camel_case("B"), "B");
    assert_eq!(parse_camel_case(""), "");
    assert_eq!(parse_camel_case("ABC"), "ABC");
    assert_eq!(parse_camel_case("HTML"), "HTML");
    assert_eq!(parse_camel_case("HTMLParser"), "HTML Parser");
}

#[test]
fn parse_hashtag_output_is_normalized() {
    let result = parse_hashtag("   #fooBar    baz  ");
    assert_eq!(result, "#foo Bar baz");
    assert_eq!(result, trim_whitespace(&result));
}
