use dockfoxbuild::state::VarMap;
use dockfoxbuild::substitute::substitute;

fn vars(pairs: &[(&str, &str)]) -> VarMap {
    let mut v = VarMap::default();
    for (k, val) in pairs {
        v.env.insert(k.to_string(), val.to_string());
    }
    v
}

#[test]
fn test_basic_substitution() {
    let v = vars(&[("Y", "24")]);
    assert_eq!(
        substitute("X is ${X} and Y is ${Y}", &v).unwrap(),
        "X is  and Y is 24"
    );
}

#[test]
fn test_bare_variable() {
    let v = vars(&[("FOO", "bar")]);
    assert_eq!(substitute("Hello $FOO!", &v).unwrap(), "Hello bar!");
}

#[test]
fn test_unset_expands_to_empty() {
    let v = vars(&[]);
    assert_eq!(substitute("${UNSET}", &v).unwrap(), "");
    assert_eq!(substitute("$UNSET", &v).unwrap(), "");
}

#[test]
fn test_default_value() {
    let v = vars(&[]);
    assert_eq!(substitute("${X:-fallback}", &v).unwrap(), "fallback");
}

#[test]
fn test_default_value_not_used_when_set() {
    let v = vars(&[("X", "42")]);
    assert_eq!(substitute("${X:-fallback}", &v).unwrap(), "42");
}

#[test]
fn test_replacement_value() {
    let v = vars(&[("X", "42")]);
    assert_eq!(substitute("${X:+isset}", &v).unwrap(), "isset");
}

#[test]
fn test_replacement_value_empty_when_unset() {
    let v = vars(&[]);
    assert_eq!(substitute("${X:+isset}", &v).unwrap(), "");
}

#[test]
fn test_escaped_dollar() {
    let v = vars(&[("X", "42")]);
    assert_eq!(substitute(r"\$X", &v).unwrap(), "$X");
}

#[test]
fn test_backslash_passthrough() {
    let v = vars(&[]);
    // \n and \\ should be passed through unchanged
    assert_eq!(substitute(r"printf '%s\n'", &v).unwrap(), r"printf '%s\n'");
}

#[test]
fn test_missing_closing_brace() {
    let v = vars(&[]);
    assert!(substitute("${X", &v).is_err());
}

#[test]
fn missing_brace_names_the_text() {
    let v = vars(&[]);
    assert_eq!(substitute("a ${X b", &v).unwrap_err().inner, "X b");
}

#[test]
fn environment_hides_build_argument() {
    let mut v = vars(&[("A", "env")]);
    v.args.insert("A".to_string(), "arg".to_string());
    v.args.insert("B".to_string(), "only arg".to_string());
    assert_eq!(v.get("A"), "env");
    assert_eq!(v.get("B"), "only arg");
    assert_eq!(v.get("C"), "");
    assert_eq!(substitute("$A/${B}/$C", &v).unwrap(), "env/only arg/");
}

#[test]
fn plain_and_escaped_text_stays() {
    let v = vars(&[("X", "42")]);
    assert_eq!(substitute("no variables", &v).unwrap(), "no variables");
    assert_eq!(substitute(r"costs \$5 and \$X", &v).unwrap(), "costs $5 and $X");
}
