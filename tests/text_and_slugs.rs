use catalog_migration::chars::{chars_of, contains_chars};
use catalog_migration::slug::{mentions_test, slugify};
use catalog_migration::text::{Jsonstring, OldJson};

fn paragraph_text(doc: &Jsonstring) -> String {
    let v: serde_json::Value = serde_json::from_str(&doc.to_string()).unwrap();
    let blocks = v.get("blocks").unwrap().as_array().unwrap();
    assert_eq!(blocks.len(), 1);
    assert_eq!(blocks[0].get("type").unwrap().as_str().unwrap(), "paragraph");
    blocks[0].get("data").unwrap().get("text").unwrap().as_str().unwrap().to_string()
}

#[test]
fn slug_of_decorated_name() {
    assert_eq!(slugify("Vianočná dekorácia #7!"), "vianocna-dekoracia-7");
    assert_eq!(slugify("--Hello, world!--"), "hello-world");
}

#[test]
fn slug_collapses_runs_and_trims() {
    assert_eq!(slugify("  Čaj & Káva  "), "caj-kava");
    assert_eq!(slugify("A--B"), "a--b");
    assert_eq!(slugify("x!!!y"), "x-y");
    assert_eq!(slugify(""), "");
}

#[test]
fn test_marker_is_found_in_any_case() {
    assert!(mentions_test("Testovacia kategória"));
    assert!(mentions_test("my TEST row"));
    assert!(!mentions_test("Tst"));
    assert!(!mentions_test(""));
}

#[test]
fn contains_chars_finds_runs() {
    let s = chars_of("abcde");
    assert!(contains_chars(&s, &chars_of("cd")));
    assert!(contains_chars(&s, &chars_of("")));
    assert!(!contains_chars(&s, &chars_of("ce")));
    assert!(!contains_chars(&chars_of("ab"), &chars_of("abc")));
}

#[test]
fn normalizer_unwraps_once() {
    let raw = r#"{"sk":"Hello &amp; World"}"#.to_string();
    assert_eq!(Jsonstring::purify_old_json(&raw), "Hello & World");
    let doc = Jsonstring::parse_old_json(&raw);
    assert_eq!(paragraph_text(&doc), "Hello & World");
}

#[test]
fn normalizer_keeps_plain_ampersand() {
    let raw = r#"{"sk":"Hello & World"}"#.to_string();
    let doc = Jsonstring::parse_old_json(&raw);
    assert_eq!(paragraph_text(&doc), "Hello & World");
}

#[test]
fn normalizer_unwraps_twice() {
    let raw = r#"{"sk":"{\"sk\":\"X\"}"}"#.to_string();
    assert_eq!(Jsonstring::purify_old_json(&raw), "X");
}

#[test]
fn normalizer_leaves_plain_text() {
    assert_eq!(Jsonstring::purify_old_json(&"a &lt; b".to_string()), "a < b");
    assert_eq!(Jsonstring::purify_old_json(&"plain".to_string()), "plain");
    assert_eq!(Jsonstring::purify_old_json(&r#"{"other":"x"}"#.to_string()), r#"{"other":"x"}"#);
    assert_eq!(Jsonstring::purify_old_json(&r#"{"sk":""}"#.to_string()), "");
}

#[test]
fn legacy_envelope_is_read() {
    assert_eq!(OldJson::from_json(r#"{"sk":"inner"}"#).unwrap().sk, "inner");
    assert!(OldJson::from_json("not json").is_none());
    assert!(OldJson::from_json(r#"{"sk":5}"#).is_none());
}

#[test]
fn document_has_fixed_shape() {
    let doc = Jsonstring::document("say \"hi\"", "abcd1234", 1700000000);
    assert_eq!(
        doc.to_string(),
        r#"{"blocks":[{"data":{"text":"say \"hi\""},"id":"abcd1234","type":"paragraph"}],"time":1700000000,"version":"2.24.3"}"#
    );
    let ctl = Jsonstring::document("a\nb\u{1}/\\", "i", 0);
    assert!(ctl.to_string().contains(r#""text":"a\nb\u0001/\\""#));
    let neg = Jsonstring::document("", "x", -5);
    assert!(neg.to_string().contains(r#""time":-5,"#));
}

#[test]
fn fresh_document_has_random_id_and_time() {
    let doc = Jsonstring::from_string("text".to_string());
    let v: serde_json::Value = serde_json::from_str(&doc.to_string()).unwrap();
    let id = v["blocks"][0]["id"].as_str().unwrap().to_string();
    assert_eq!(id.len(), 8);
    assert!(id.chars().all(|c| c.is_ascii_alphanumeric()));
    assert!(v["time"].as_i64().unwrap() > 0);
    assert_eq!(v["version"].as_str().unwrap(), "2.24.3");
    assert_eq!(paragraph_text(&doc), "text");
}
