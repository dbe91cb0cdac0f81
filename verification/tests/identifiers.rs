use chunk_decode::name::{
    is_air, same_text, split_identifier, AIR_IDENTIFIER, DEFAULT_NAME, DEFAULT_NAMESPACE,
    SEPARATOR,
};

#[test]
fn identifier_constants() {
    assert_eq!(AIR_IDENTIFIER, "minecraft:air");
    assert_eq!(DEFAULT_NAMESPACE, "minecraft");
    assert_eq!(DEFAULT_NAME, "air");
    assert_eq!(SEPARATOR, ':');
}

#[test]
fn split_at_the_separator() {
    assert_eq!(split_identifier("minecraft:stone"), ("minecraft", "stone"));
    assert_eq!(split_identifier("mod:copper_ore"), ("mod", "copper_ore"));
}

#[test]
fn split_at_the_first_separator_only() {
    assert_eq!(split_identifier("a:b:c"), ("a", "b:c"));
    assert_eq!(split_identifier("::"), ("", ":"));
}

#[test]
fn split_with_an_empty_side() {
    assert_eq!(split_identifier(":x"), ("", "x"));
    assert_eq!(split_identifier("x:"), ("x", ""));
    assert_eq!(split_identifier(":"), ("", ""));
}

#[test]
fn split_without_separator_falls_back_to_air() {
    assert_eq!(split_identifier("stone"), ("minecraft", "air"));
    assert_eq!(split_identifier(""), ("minecraft", "air"));
}

#[test]
fn split_counts_characters_not_bytes() {
    assert_eq!(split_identifier("caf\u{e9}:\u{fc}ber"), ("caf\u{e9}", "\u{fc}ber"));
    assert_eq!(split_identifier("\u{1F600}\u{1F600}:x"), ("\u{1F600}\u{1F600}", "x"));
}

#[test]
fn air_is_recognised_exactly() {
    assert!(is_air("minecraft:air"));
    assert!(!is_air("minecraft:air "));
    assert!(!is_air("minecraft:cave_air"));
    assert!(!is_air("Minecraft:air"));
    assert!(!is_air("air"));
    assert!(!is_air(""));
    assert!(!is_air("minecraft:ai"));
}

#[test]
fn same_text_compares_every_character() {
    assert!(same_text("", ""));
    assert!(same_text("abc", "abc"));
    assert!(!same_text("abc", "abd"));
    assert!(!same_text("abc", "ab"));
    assert!(!same_text("ab", "abc"));
    assert!(same_text("caf\u{e9}", "caf\u{e9}"));
    assert!(!same_text("cafe", "caf\u{e9}"));
}
