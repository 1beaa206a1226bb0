use bfup::config::{Config, ConfigField, Error};

#[test]
fn config_default_roles() {
    let config = Config::default();
    for op in ['+', '-', '<', '>', '[', ']', '.', ','] {
        assert!(matches!(config.get_field(op), Some(ConfigField::Operator)));
    }
    assert!(matches!(
        config.get_field('('),
        Some(ConfigField::GroupStartDelimiter)
    ));
    assert!(matches!(
        config.get_field(')'),
        Some(ConfigField::GroupEndDelimiter)
    ));
    assert!(matches!(
        config.get_field('#'),
        Some(ConfigField::NumberPrefix)
    ));
    assert!(matches!(
        config.get_field('$'),
        Some(ConfigField::MacroPrefix)
    ));
    assert!(matches!(
        config.get_field('\\'),
        Some(ConfigField::EscapePrefix)
    ));
    assert!(config.get_field('x').is_none());
}

#[test]
fn config_get_value() {
    let config = Config::default();
    assert_eq!(config.get_value(&ConfigField::GroupStartDelimiter), '(');
    assert_eq!(config.get_value(&ConfigField::GroupEndDelimiter), ')');
    assert_eq!(config.get_value(&ConfigField::NumberPrefix), '#');
    assert_eq!(config.get_value(&ConfigField::MacroPrefix), '$');
    assert_eq!(config.get_value(&ConfigField::EscapePrefix), '\\');
    assert_eq!(config.get_value(&ConfigField::Operator), '+');
}

#[test]
fn config_rejects_equal_delimiters() {
    let result = Config::new(vec!['+'], '(', '(', '#', '$', '\\');
    match result {
        Err(Error::NotUnique(offered, existing)) => {
            assert_eq!(offered, ConfigField::GroupEndDelimiter);
            assert_eq!(existing, ConfigField::GroupStartDelimiter);
        }
        _ => panic!("two roles on one character must be rejected"),
    }
}

#[test]
fn config_rejects_prefix_that_is_an_operator() {
    let result = Config::new(vec!['+', '#'], '(', ')', '#', '$', '\\');
    match result {
        Err(Error::NotUnique(offered, existing)) => {
            assert_eq!(offered, ConfigField::NumberPrefix);
            assert_eq!(existing, ConfigField::Operator);
        }
        _ => panic!("a prefix that is also an operator must be rejected"),
    }
}

#[test]
fn config_accepts_distinct_characters() {
    let config = Config::new(vec!['a', 'b', 'a'], '<', '>', '%', '@', '!')
        .expect("distinct non-operator characters are accepted");
    assert!(matches!(config.get_field('a'), Some(ConfigField::Operator)));
    assert!(matches!(
        config.get_field('<'),
        Some(ConfigField::GroupStartDelimiter)
    ));
}
