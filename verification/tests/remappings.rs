use reflections::remappings::Remappings;

#[test]
fn test_remapping_basic() {
    let mut remappings = Remappings::new();
    remappings.add("@openzeppelin/", "lib/openzeppelin-contracts/");

    assert_eq!(
        remappings.remap("@openzeppelin/contracts/token/ERC20/ERC20.sol"),
        "lib/openzeppelin-contracts/contracts/token/ERC20/ERC20.sol"
    );
}

#[test]
fn test_remapping_longest_match() {
    let mut remappings = Remappings::new();
    remappings.add("@openzeppelin/", "lib/oz/");
    remappings.add("@openzeppelin/contracts/", "lib/openzeppelin-contracts/contracts/");

    assert_eq!(
        remappings.remap("@openzeppelin/contracts/token/ERC20/ERC20.sol"),
        "lib/openzeppelin-contracts/contracts/token/ERC20/ERC20.sol"
    );
}

#[test]
fn test_process_imports() {
    let mut remappings = Remappings::new();
    remappings.add("@openzeppelin/", "lib/openzeppelin-contracts/");

    let content = r#"import { ERC20 } from "@openzeppelin/contracts/token/ERC20/ERC20.sol";
import { Ownable } from "@openzeppelin/contracts/access/Ownable.sol";"#;

    let processed = remappings.process_imports(content);

    assert!(processed.contains("lib/openzeppelin-contracts/contracts/token/ERC20/ERC20.sol"));
    assert!(processed.contains("lib/openzeppelin-contracts/contracts/access/Ownable.sol"));
}

#[test]
fn test_remapping_longest_match_order_independent() {
    let mut remappings = Remappings::new();
    remappings.add("@a/b/", "Y/");
    remappings.add("@a/", "X/");

    assert_eq!(remappings.remap("@a/b/c.sol"), "Y/c.sol");
}

#[test]
fn test_remapping_no_match_returns_path_unchanged() {
    let mut remappings = Remappings::new();
    remappings.add("@openzeppelin/", "lib/openzeppelin-contracts/");

    assert_eq!(remappings.remap("src/Counter.sol"), "src/Counter.sol");
}

#[test]
fn test_remapping_equal_length_tie_goes_to_first_added() {
    let mut remappings = Remappings::new();
    remappings.add("@aa/", "first/");
    remappings.add("@ab/", "other/");
    assert_eq!(remappings.remap("@aa/x.sol"), "first/x.sol");

    let mut reversed = Remappings::new();
    reversed.add("@ab/", "other/");
    reversed.add("@aa/", "first/");
    assert_eq!(reversed.remap("@aa/x.sol"), "first/x.sol");
}

#[test]
fn test_remapping_rebinding_a_prefix_replaces_it() {
    let mut remappings = Remappings::new();
    remappings.add("@a/", "old/");
    remappings.add("@a/", "new/");
    assert_eq!(remappings.mappings.len(), 1);
    assert_eq!(remappings.remap("@a/x.sol"), "new/x.sol");
}

#[test]
fn test_parse_skips_blank_and_comment_lines() {
    let content = "# a comment\n\n@openzeppelin/=lib/openzeppelin-contracts/\n  forge-std/ = lib/forge-std/src/  \n";
    let remappings = Remappings::parse(content).unwrap();
    assert_eq!(remappings.mappings.len(), 2);
    assert_eq!(
        remappings.remap("@openzeppelin/token.sol"),
        "lib/openzeppelin-contracts/token.sol"
    );
    assert_eq!(remappings.remap("forge-std/Test.sol"), "lib/forge-std/src/Test.sol");
}

#[test]
fn test_parse_later_binding_wins() {
    let content = "@a/=one/\n@a/=two/\n";
    let remappings = Remappings::parse(content).unwrap();
    assert_eq!(remappings.mappings.len(), 1);
    assert_eq!(remappings.remap("@a/x"), "two/x");
}

#[test]
fn test_parse_line_without_equals_is_skipped() {
    let remappings = Remappings::parse("no separator here\n@a/=b/\n").unwrap();
    assert_eq!(remappings.mappings.len(), 1);
}

#[test]
fn test_process_imports_leaves_non_import_lines_unchanged() {
    let mut remappings = Remappings::new();
    remappings.add("@a/", "b/");

    let content = "pragma solidity ^0.8.0;\ncontract Foo {\n    string s = \"@a/not-an-import\";\n}";
    assert_eq!(remappings.process_imports(content), content);
}

#[test]
fn test_process_imports_rewrites_only_the_quoted_path() {
    let mut remappings = Remappings::new();
    remappings.add("@a/", "b/");

    let content = "import { X } from \"@a/X.sol\"; // from @a/X.sol";
    let processed = remappings.process_imports(content);
    assert_eq!(processed, "import { X } from \"b/X.sol\"; // from @a/X.sol");
}

#[test]
fn test_process_imports_preserves_trailing_newline() {
    let mut remappings = Remappings::new();
    remappings.add("@a/", "b/");

    assert_eq!(remappings.process_imports("import \"@a/X.sol\";\n"), "import \"b/X.sol\";\n");
    assert_eq!(remappings.process_imports("import \"@a/X.sol\";"), "import \"b/X.sol\";");
}
