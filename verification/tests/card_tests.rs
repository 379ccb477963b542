use idsmith::checksum::luhn_check_digit;
use idsmith::credit_card::{build_number, GenOptions, Registry};
use rand::rngs::StdRng;
use rand::SeedableRng;

fn digits_of(s: &str) -> Vec<u8> {
    s.bytes().map(|b| b - b'0').collect()
}

#[test]
fn card_validate_known_numbers() {
    let r = Registry::new();
    assert!(r.validate("4111111111111111"));
    assert!(r.validate("5555555555554444"));
    assert!(r.validate("378282246310005"));
    assert!(r.validate("6011111111111117"));
}

#[test]
fn card_validate_rejects_broken_numbers() {
    let r = Registry::new();
    assert!(!r.validate("4111111111111112"));
    assert!(!r.validate("4152839405126374"));
    assert!(!r.validate("411111111111111"));
    assert!(!r.validate(""));
    assert!(!r.validate("41111111111"));
    assert!(!r.validate("41111111111111111111"));
    assert!(!r.validate("4111a11111111111"));
    assert!(!r.validate("4111.1111.1111.1111"));
    assert!(!r.validate("4111 1111 1111 1111"));
    assert!(!r.validate("4111-1111-1111-1111"));
}

#[test]
fn card_build_number_appends_the_luhn_digit() {
    let prefix: Vec<char> = "4".chars().collect();
    let number: String = build_number(&prefix, &vec![1; 14]).iter().collect();
    assert_eq!(number, "4111111111111111");
}

#[test]
fn every_brand_generates_luhn_valid_numbers() {
    let r = Registry::new();
    let brands = r.list_brands();
    assert!(!brands.is_empty());
    assert_eq!(brands, vec!["Visa", "Mastercard", "Amex", "Discover", "JCB", "Diners"]);
    let mut rng = StdRng::seed_from_u64(6);
    for brand in brands {
        for _ in 0..100 {
            let opts = GenOptions { brand: Some(brand.to_string()) };
            let card = r.generate(&opts, &mut rng).unwrap();
            assert_eq!(card.brand, brand);
            assert!(card.valid);
            assert!(r.validate(&card.number), "{}", card.number);
            let d = digits_of(&card.number);
            assert_eq!(luhn_check_digit(&d[..d.len() - 1]), d[d.len() - 1]);
            assert_eq!(card.formatted, r.format(brand, &card.number));
            assert!(r.validate(&card.formatted.replace(' ', "")));
        }
    }
}

#[test]
fn card_prefix_and_length_follow_the_brand() {
    let r = Registry::new();
    let mut rng = StdRng::seed_from_u64(7);
    for _ in 0..50 {
        let visa = r.generate(&GenOptions { brand: Some("visa".to_string()) }, &mut rng).unwrap();
        assert_eq!(visa.brand, "Visa");
        assert!(visa.number.starts_with('4'));
        assert_eq!(visa.number.len(), 16);
        let amex = r.generate(&GenOptions { brand: Some("AMEX".to_string()) }, &mut rng).unwrap();
        assert!(amex.number.starts_with("34") || amex.number.starts_with("37"));
        assert_eq!(amex.number.len(), 15);
        let mc = r.generate(&GenOptions { brand: Some("Mastercard".to_string()) }, &mut rng).unwrap();
        let two: u32 = mc.number[..2].parse().unwrap();
        assert!((51..=55).contains(&two));
        let diners = r.generate(&GenOptions { brand: Some("Diners".to_string()) }, &mut rng).unwrap();
        assert_eq!(diners.number.len(), 14);
        assert!(diners.number.starts_with("36"));
    }
}

#[test]
fn card_of_a_drawn_brand() {
    let r = Registry::new();
    let mut rng = StdRng::seed_from_u64(8);
    let mut seen = std::collections::HashSet::new();
    for _ in 0..300 {
        let card = r.generate(&GenOptions::default(), &mut rng).unwrap();
        assert!(r.validate(&card.number));
        seen.insert(card.brand);
    }
    assert_eq!(seen.len(), 6);
}

#[test]
fn card_of_an_unknown_brand_is_none() {
    let r = Registry::new();
    let mut rng = StdRng::seed_from_u64(9);
    assert!(r.generate(&GenOptions { brand: Some("Nonesuch".to_string()) }, &mut rng).is_none());
    assert!(r.generate(&GenOptions { brand: Some("".to_string()) }, &mut rng).is_none());
}

#[test]
fn card_format_by_brand() {
    let r = Registry::new();
    assert_eq!(r.format("Visa", "4111111111111111"), "4111 1111 1111 1111");
    assert_eq!(r.format("amex", "378282246310005"), "3782 822463 10005");
    assert_eq!(r.format("Diners", "36111111111111"), "3611 1111 1111 11");
    assert_eq!(r.format("Visa", "4111 1111 1111 1111"), "4111 1111 1111 1111");
    assert_eq!(r.format("Amex", "3782 822463 10005"), "3782 822463 10005");
    assert_eq!(r.format("Amex", "3782 8224 6310 005"), "3782 822463 10005");
}

#[test]
fn credit_cards_accessor_gives_a_registry() {
    assert!(idsmith::credit_cards().validate("4111111111111111"));
}
