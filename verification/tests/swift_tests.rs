use idsmith::swift::{GenOptions, Registry};
use rand::rngs::StdRng;
use rand::thread_rng;
use rand::SeedableRng;

#[test]
fn test_swift_generation() {
    let registry = Registry::new();
    let mut rng = StdRng::from_rng(thread_rng()).unwrap();
    let opts = GenOptions::default();

    for _ in 0..100 {
        let result = registry.generate(&opts, &mut rng);
        assert!(
            registry.validate(&result.code),
            "Failed to validate generated code: {}",
            result.code
        );
        assert!(result.valid);
    }
}

#[test]
fn test_specific_countries() {
    let registry = Registry::new();
    let mut rng = StdRng::from_rng(thread_rng()).unwrap();

    let countries = vec!["US", "GB", "DE", "FR"];

    for country in countries {
        let opts = GenOptions {
            country: Some(country.to_string()),
        };
        let result = registry.generate(&opts, &mut rng);
        assert_eq!(result.country, country);
        assert!(
            registry.validate(&result.code),
            "Failed to validate {}: {}",
            country,
            result.code
        );
    }
}

#[test]
fn swift_code_is_its_parts_in_order() {
    let registry = Registry::new();
    let mut rng = StdRng::seed_from_u64(7);
    for _ in 0..200 {
        let r = registry.generate(&GenOptions::default(), &mut rng);
        let branch = r.branch.clone().unwrap_or_default();
        assert_eq!(r.code, format!("{}{}{}{}", r.bank, r.country, r.location, branch));
        assert_eq!(r.bank.len(), 4);
        assert_eq!(r.country.len(), 2);
        assert_eq!(r.location.len(), 2);
        assert!(branch.is_empty() || branch.len() == 3);
        let second = r.location.chars().nth(1).unwrap();
        assert!(('2'..='9').contains(&second));
    }
}

#[test]
fn swift_bank_comes_from_the_country_pool() {
    let registry = Registry::new();
    let mut rng = StdRng::seed_from_u64(11);
    let pool = ["DEUT", "COBA", "DABA", "DRE2", "DZAD"];
    let mut seen = std::collections::HashSet::new();
    for _ in 0..200 {
        let opts = GenOptions { country: Some("de".to_string()) };
        let r = registry.generate(&opts, &mut rng);
        assert_eq!(r.country, "DE");
        assert!(pool.contains(&r.bank.as_str()), "bank {}", r.bank);
        seen.insert(r.bank);
    }
    assert!(seen.len() > 1);
}

#[test]
fn swift_draws_every_kind_of_branch() {
    let registry = Registry::new();
    let mut rng = StdRng::seed_from_u64(3);
    let (mut none, mut xxx, mut other) = (0, 0, 0);
    for _ in 0..500 {
        let r = registry.generate(&GenOptions::default(), &mut rng);
        match r.branch.as_deref() {
            None => none += 1,
            Some("XXX") => xxx += 1,
            Some(_) => other += 1,
        }
    }
    assert!(none > 0 && xxx > 0 && other > 0);
}

#[test]
fn swift_validate_accepts_eight_and_eleven() {
    let registry = Registry::new();
    assert!(registry.validate("DEUTDEFF"));
    assert!(registry.validate("DEUTDEFF500"));
    assert!(registry.validate("deutdeff"));
}

#[test]
fn swift_validate_rejects_malformed() {
    let registry = Registry::new();
    assert!(!registry.validate(""));
    assert!(!registry.validate("DEUTDEF"));
    assert!(!registry.validate("DEUTDEFF5"));
    assert!(!registry.validate("DEUTDEFF5000"));
    assert!(!registry.validate("DEUT1EFF"));
    assert!(!registry.validate("DEUTD1FF"));
    assert!(!registry.validate("DEUT-EFF"));
    assert!(!registry.validate("DEUTDEF\u{e9}"));
    assert!(!registry.validate("DEUTDE\u{e9}"));
}

#[test]
fn swift_flag_follows_validation_for_a_malformed_country() {
    let registry = Registry::new();
    let mut rng = StdRng::seed_from_u64(5);
    let opts = GenOptions { country: Some("X".to_string()) };
    let r = registry.generate(&opts, &mut rng);
    assert_eq!(r.country, "X");
    assert_eq!(r.valid, registry.validate(&r.code));
    assert!(!r.valid);
}

#[test]
fn swift_codes_accessor_gives_a_registry() {
    assert!(idsmith::swift_codes().validate("BARCGB22"));
}
