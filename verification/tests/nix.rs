use dotfiles::nix::Configuration;

fn pairs(items: &[(&str, &str)]) -> Vec<(String, String)> {
    items
        .iter()
        .map(|(k, v)| (k.to_string(), v.to_string()))
        .collect()
}

#[test]
fn test_parse_nix_conf() {
    assert_eq!(
        Configuration::parse("sandbox = false\nmax-jobs=auto\n").unwrap(),
        Configuration::from_entries(
            [
                ("sandbox".to_string(), "false".to_string()),
                ("max-jobs".to_string(), "auto".to_string())
            ]
            .iter()
            .cloned()
            .collect()
        )
    );
    assert_eq!(
        Configuration::parse("").unwrap(),
        Configuration::from_entries([].iter().cloned().collect())
    );
}

#[test]
fn comments_and_blank_lines_are_passed_over() {
    let conf = Configuration::parse("# a = b\n\n   \n  # indented\n key = value = more \n").unwrap();
    assert_eq!(conf, Configuration::from_entries(pairs(&[("key", "value = more")])));
    assert_eq!(conf.get("key"), "value = more");
    assert_eq!(conf.get("a"), "");
}

#[test]
fn later_line_of_a_key_counts() {
    let conf = Configuration::parse("a = 1\nb = 2\na = 3").unwrap();
    assert_eq!(conf, Configuration::from_entries(pairs(&[("a", "3"), ("b", "2")])));
    assert_eq!(conf.render(), "a = 3\nb = 2");
}

#[test]
fn line_without_assignment_is_an_error() {
    let error = Configuration::parse("a = 1\n  oops  \nb = 2").unwrap_err();
    assert_eq!(error.line, "oops");
    assert_eq!(Configuration::parse("=").unwrap(), Configuration::from_entries(pairs(&[("", "")])));
}

#[test]
fn settings_are_rendered_line_by_line() {
    assert_eq!(Configuration::new().render(), "");
    assert_eq!(
        Configuration::from_entries(pairs(&[("a", "1")])).render(),
        "a = 1"
    );
    assert_eq!(
        Configuration::from_entries(pairs(&[("a", "1"), ("b", "x y"), ("a", "2")])).render(),
        "a = 2\nb = x y"
    );
}

#[test]
fn value_is_replaced_in_its_place() {
    let mut conf = Configuration::parse("a = 1\nb = 2").unwrap();
    conf.replace_value("a", "9");
    conf.replace_value("c", "3");
    assert_eq!(conf.render(), "a = 9\nb = 2\nc = 3");
}

#[test]
fn entry_is_added_to_a_list_once() {
    let mut conf = Configuration::parse("list = b  a b \t").unwrap();
    conf.append_to_list("list", "c");
    assert_eq!(conf.get("list"), "b a c");
    conf.append_to_list("list", "a");
    assert_eq!(conf.get("list"), "b a c");
    conf.append_to_list("new", "x");
    assert_eq!(conf.render(), "list = b a c\nnew = x");
}

#[test]
fn cache_is_added_to_the_settings() {
    let mut conf = Configuration::parse("substituters = https://cache.nixos.org").unwrap();
    let hook = conf.add_cache("cache:key", "s3://mine");
    assert_eq!(
        conf.render(),
        "substituters = https://cache.nixos.org s3://mine\ntrusted-public-keys = cache:key\npost-build-hook = /etc/nix/post-build-hook\nsecret-key-files = /etc/nix/secret-key"
    );
    assert!(hook.starts_with("#!/usr/bin/env bash\n"));
    assert!(hook.ends_with("exec nix copy --to 's3://mine' $OUT_PATHS\n"));
    // telling it twice changes nothing
    conf.add_cache("cache:key", "s3://mine");
    assert_eq!(
        conf.render(),
        "substituters = https://cache.nixos.org s3://mine\ntrusted-public-keys = cache:key\npost-build-hook = /etc/nix/post-build-hook\nsecret-key-files = /etc/nix/secret-key"
    );
}

#[test]
fn the_order_of_the_settings_tells_configurations_apart() {
    let a = Configuration::from_entries(pairs(&[("sandbox", "false"), ("max-jobs", "auto")]));
    let b = Configuration::from_entries(pairs(&[("max-jobs", "auto"), ("sandbox", "false")]));
    let c = Configuration::from_entries(pairs(&[("sandbox", "false"), ("max-jobs", "auto")]));
    assert_ne!(a, b);
    assert_eq!(a, c);
    assert_eq!(a.get("max-jobs"), b.get("max-jobs"));
}
