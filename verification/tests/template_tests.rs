use firefox_brand_generator::config::BrandConfig;
use firefox_brand_generator::error::Error;
use firefox_brand_generator::template::process_string_replacements;

fn brand() -> BrandConfig {
    let mut config = BrandConfig::default();
    config.strings.insert("brandShortName".to_string(), "Firefox".to_string());
    config.strings.insert("brandFullName".to_string(), "Mozilla Firefox".to_string());
    config
}

#[test]
fn replaces_string_references() {
    let r = process_string_replacements("{{#str brandShortName}} by {{#str brandFullName}}", &brand());
    assert_eq!(r, Ok("Firefox by Mozilla Firefox".to_string()));
}

#[test]
fn single_reference() {
    assert_eq!(
        process_string_replacements("{{#str brandShortName}}", &brand()),
        Ok("Firefox".to_string())
    );
}

#[test]
fn blanks_around_key_are_ignored() {
    assert_eq!(
        process_string_replacements("[{{#str   brandShortName \t}}]", &brand()),
        Ok("[Firefox]".to_string())
    );
}

#[test]
fn plain_text_is_unchanged() {
    assert_eq!(process_string_replacements("200 120", &brand()), Ok("200 120".to_string()));
    assert_eq!(process_string_replacements("", &brand()), Ok(String::new()));
    assert_eq!(
        process_string_replacements("{{#if name == nightly}}x{{#endif}}", &brand()),
        Ok("{{#if name == nightly}}x{{#endif}}".to_string())
    );
}

#[test]
fn unknown_key_is_an_error() {
    assert_eq!(
        process_string_replacements("Hi {{#str vendorShortName}}", &brand()),
        Err(Error::UnknownStringKey("vendorShortName".to_string()))
    );
}

#[test]
fn unclosed_reference_is_malformed() {
    let template = "{{#str brandShortName}} {{#str brandFullName";
    assert_eq!(
        process_string_replacements(template, &brand()),
        Err(Error::MalformedTemplate(template.to_string()))
    );
}

#[test]
fn first_fault_decides() {
    assert_eq!(
        process_string_replacements("{{#str nope}} {{#str unclosed", &brand()),
        Err(Error::UnknownStringKey("nope".to_string()))
    );
}

#[test]
fn non_ascii_text_around_references() {
    assert_eq!(
        process_string_replacements("«{{#str brandShortName}}» ✓", &brand()),
        Ok("«Firefox» ✓".to_string())
    );
}
