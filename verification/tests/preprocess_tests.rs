use firefox_brand_generator::config::BrandConfig;
use firefox_brand_generator::error::Error;
use firefox_brand_generator::preprocess::preprocess;

fn brand(name: &str) -> BrandConfig {
    let mut config = BrandConfig::default();
    config.strings.insert("brandShortName".to_string(), "Firefox".to_string());
    config.env.insert("name".to_string(), name.to_string());
    config.env.insert("channel".to_string(), "release".to_string());
    config
}

const README_EXAMPLE: &str = "{{#if name != official && name != aurora}}
Official or aurora build content here
{{#elseif name == nightly}}
Nightly build content
{{#else}}
Other build content
{{#endif}}
";

#[test]
fn readme_example_first_branch() {
    assert_eq!(
        preprocess(README_EXAMPLE, &brand("nightly")),
        Ok("Official or aurora build content here\n".to_string())
    );
}

#[test]
fn readme_example_else_branch() {
    assert_eq!(preprocess(README_EXAMPLE, &brand("official")), Ok("Other build content\n".to_string()));
}

#[test]
fn elseif_branch_taken() {
    let text = "{{#if name == official}}A{{#elseif name == nightly}}B{{#else}}C{{#endif}}";
    assert_eq!(preprocess(text, &brand("nightly")), Ok("B".to_string()));
    assert_eq!(preprocess(text, &brand("official")), Ok("A".to_string()));
    assert_eq!(preprocess(text, &brand("aurora")), Ok("C".to_string()));
}

#[test]
fn strings_are_expanded_in_kept_text_only() {
    let text = "Name: {{#str brandShortName}}\n{{#if name == nightly}}{{#str missing}}{{#endif}}";
    assert_eq!(preprocess(text, &brand("official")), Ok("Name: Firefox\n".to_string()));
    assert_eq!(
        preprocess(text, &brand("nightly")),
        Err(Error::UnknownStringKey("missing".to_string()))
    );
}

#[test]
fn or_and_parentheses() {
    let text = "{{#if (name == nightly || name == aurora) && channel == release}}yes{{#else}}no{{#endif}}";
    assert_eq!(preprocess(text, &brand("aurora")), Ok("yes".to_string()));
    assert_eq!(preprocess(text, &brand("official")), Ok("no".to_string()));
    let text = "{{#if name == nightly || name == aurora && channel == beta}}yes{{#else}}no{{#endif}}";
    assert_eq!(preprocess(text, &brand("nightly")), Ok("yes".to_string()));
    assert_eq!(preprocess(text, &brand("aurora")), Ok("no".to_string()));
}

#[test]
fn nested_blocks() {
    let text = "{{#if name == nightly}}a{{#if channel == release}}b{{#else}}c{{#endif}}d{{#else}}e{{#endif}}";
    assert_eq!(preprocess(text, &brand("nightly")), Ok("abd".to_string()));
    assert_eq!(preprocess(text, &brand("official")), Ok("e".to_string()));
}

#[test]
fn plain_text_is_kept() {
    assert_eq!(preprocess("a {{b}} {{#unknown}} c\n", &brand("x")), Ok("a {{b}} {{#unknown}} c\n".to_string()));
}

#[test]
fn unknown_env_name_is_an_error() {
    assert_eq!(
        preprocess("{{#if vendor == mozilla}}x{{#endif}}", &brand("nightly")),
        Err(Error::UnknownEnvKey("vendor".to_string()))
    );
}

#[test]
fn malformed_conditions() {
    assert_eq!(
        preprocess("{{#if name = nightly}}x{{#endif}}", &brand("nightly")),
        Err(Error::MalformedCondition("name = nightly".to_string()))
    );
    assert_eq!(
        preprocess("{{#if (name == nightly}}x{{#endif}}", &brand("nightly")),
        Err(Error::MalformedCondition("(name == nightly".to_string()))
    );
}

#[test]
fn unbalanced_blocks_are_malformed() {
    for text in ["{{#if name == x}}a", "a{{#endif}}", "{{#else}}", "{{#if name == x}}{{#else}}{{#else}}{{#endif}}", "{{#if name == x"] {
        assert_eq!(preprocess(text, &brand("x")), Err(Error::MalformedTemplate(text.to_string())));
    }
}

#[test]
fn if_else_block_keeps_one_branch() {
    let text = "{{#if channel == release}}stable text{{#else}}other text{{#endif}}";
    assert_eq!(preprocess(text, &brand("x")), Ok("stable text".to_string()));
    let text = "{{#if channel != release}}stable text{{#else}}other text{{#endif}}";
    assert_eq!(preprocess(text, &brand("x")), Ok("other text".to_string()));
}

#[test]
fn text_without_directives_is_unchanged() {
    let text = "DIRS += ['content']\nFINAL_TARGET_FILES += [\"firefox.ico\"]\n";
    assert_eq!(preprocess(text, &brand("x")), Ok(text.to_string()));
}
