use codesearch::symbols::is_definition_chunk;

#[test]
fn test_is_definition_chunk_rust_function() {
    assert!(is_definition_chunk(
        "Function",
        &Some("fn authenticate(".to_string()),
        "authenticate"
    ));
    assert!(is_definition_chunk(
        "Function",
        &Some("pub fn CodesearchService".to_string()),
        "CodesearchService"
    ));
    assert!(is_definition_chunk(
        "Function",
        &Some("pub async fn handle_request".to_string()),
        "handle_request"
    ));
}

#[test]
fn test_is_definition_chunk_rust_struct() {
    assert!(is_definition_chunk(
        "Struct",
        &Some("pub struct CodesearchService".to_string()),
        "CodesearchService"
    ));
    assert!(is_definition_chunk(
        "Struct",
        &Some("struct SearchResult".to_string()),
        "SearchResult"
    ));
}

#[test]
fn test_is_definition_chunk_rust_trait() {
    assert!(is_definition_chunk(
        "Trait",
        &Some("pub trait Searchable".to_string()),
        "Searchable"
    ));
}

#[test]
fn test_is_definition_chunk_rust_enum() {
    assert!(is_definition_chunk(
        "Enum",
        &Some("pub enum ModelType".to_string()),
        "ModelType"
    ));
}

#[test]
fn test_is_definition_chunk_non_definition_kind() {
    // A Comment or Import kind should never be treated as a definition
    assert!(!is_definition_chunk(
        "Comment",
        &Some("fn authenticate(".to_string()),
        "authenticate"
    ));
    assert!(!is_definition_chunk(
        "Import",
        &Some("use authenticate".to_string()),
        "authenticate"
    ));
}

#[test]
fn test_is_definition_chunk_usage_not_definition() {
    // A function chunk where the signature mentions the symbol but isn't its definition
    // should NOT be filtered out
    assert!(!is_definition_chunk(
        "Function",
        &Some("fn handle_request".to_string()),
        "authenticate"
    ));
}

#[test]
fn test_is_definition_chunk_no_signature() {
    // No signature = can't determine if it's a definition
    assert!(!is_definition_chunk(
        "Function",
        &None,
        "authenticate"
    ));
    assert!(!is_definition_chunk(
        "Function",
        &Some(String::new()),
        "authenticate"
    ));
}

#[test]
fn test_is_definition_chunk_python() {
    assert!(is_definition_chunk(
        "Function",
        &Some("def authenticate(".to_string()),
        "authenticate"
    ));
    assert!(is_definition_chunk(
        "Class",
        &Some("class UserService".to_string()),
        "UserService"
    ));
}

#[test]
fn test_is_definition_chunk_impl_block() {
    // impl blocks should match
    assert!(is_definition_chunk(
        "Struct",
        &Some("impl CodesearchService".to_string()),
        "CodesearchService"
    ));
}

#[test]
fn test_is_definition_chunk_const() {
    assert!(is_definition_chunk(
        "Function",
        &Some("const MAX_SIZE".to_string()),
        "MAX_SIZE"
    ));
    assert!(is_definition_chunk(
        "Function",
        &Some("static INSTANCE".to_string()),
        "INSTANCE"
    ));
}

#[test]
fn test_is_definition_chunk_type_alias() {
    assert!(is_definition_chunk(
        "TypeAlias",
        &Some("type Result".to_string()),
        "Result"
    ));
    assert!(is_definition_chunk(
        "TypeAlias",
        &Some("pub type Error".to_string()),
        "Error"
    ));
}

#[test]
fn test_is_definition_chunk_interface() {
    assert!(is_definition_chunk(
        "Interface",
        &Some("interface Searchable".to_string()),
        "Searchable"
    ));
}

#[test]
fn test_is_definition_chunk_with_generics() {
    // fn with generics — symbol is just the name before <
    assert!(is_definition_chunk(
        "Function",
        &Some("fn parse<T>".to_string()),
        "parse"
    ));
    assert!(is_definition_chunk(
        "Struct",
        &Some("struct HashMap<K, V>".to_string()),
        "HashMap"
    ));
}

#[test]
fn test_is_definition_chunk_with_colon() {
    // trait with colon (Rust trait bounds)
    assert!(is_definition_chunk(
        "Trait",
        &Some("trait AsRef<T>:".to_string()),
        "AsRef"
    ));
}

#[test]
fn test_is_definition_chunk_wrong_symbol() {
    // Correct prefix but symbol name doesn't follow
    assert!(!is_definition_chunk(
        "Function",
        &Some("fn authenticate".to_string()),
        "authorize" // different symbol
    ));
}

#[test]
fn test_is_definition_chunk_symbol_as_prefix_of_other() {
    // Symbol is a prefix of the actual name — should NOT match
    assert!(!is_definition_chunk(
        "Function",
        &Some("fn authenticate_user".to_string()),
        "authenticate" // missing boundary check
    ));
}

#[test]
fn test_is_definition_chunk_method() {
    assert!(is_definition_chunk(
        "Method",
        &Some("fn search".to_string()),
        "search"
    ));
    assert!(is_definition_chunk(
        "Method",
        &Some("pub async fn handle".to_string()),
        "handle"
    ));
}

#[test]
fn test_is_definition_chunk_all_kinds() {
    // Verify all DEFINITION_KINDS are recognized
    let test_cases = [
        ("Function", "fn foo(", "foo"),
        ("Class", "class Bar", "Bar"),
        ("Method", "fn baz(", "baz"),
        ("Struct", "struct Qux", "Qux"),
        ("Trait", "trait Quux", "Quux"),
        ("Enum", "enum Corge", "Corge"),
        ("TypeAlias", "type Grault", "Grault"),
        ("Interface", "interface Garply", "Garply"),
    ];
    for (kind, sig, symbol) in &test_cases {
        assert!(
            is_definition_chunk(kind, &Some(sig.to_string()), symbol),
            "is_definition_chunk({kind}, {sig}, {symbol}) should be true"
        );
    }
}
