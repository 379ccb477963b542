use idsmith::checksum::{iso7064_mod11_10, luhn_check_digit};
use idsmith::personal_id::{build_se, GenOptions, Gender, Registry};
use rand::rngs::StdRng;
use rand::SeedableRng;

fn digits_of(s: &str) -> Vec<u8> {
    s.bytes().filter(|b| b.is_ascii_digit()).map(|b| b - b'0').collect()
}

#[test]
fn us_number_gets_a_verdict() {
    let r = Registry::new();
    assert_eq!(r.validate("US", "446-72-2445"), Some(true));
    assert_eq!(r.validate("us", "446-72-2445"), Some(true));
    assert_eq!(r.validate("US", "446722445"), Some(false));
    assert_eq!(r.validate("US", "446-72-244"), Some(false));
    assert_eq!(r.validate("US", "446/72/2445"), Some(false));
    assert_eq!(r.validate("US", "44A-72-2445"), Some(false));
}

#[test]
fn known_numbers_with_check_digits() {
    let r = Registry::new();
    assert_eq!(r.validate("CA", "046454286"), Some(true));
    assert_eq!(r.validate("CA", "046454287"), Some(false));
    assert_eq!(r.validate("HR", "94577403194"), Some(true));
    assert_eq!(r.validate("HR", "94577403195"), Some(false));
    assert_eq!(r.validate("DE", "65929970489"), Some(true));
    assert_eq!(r.validate("DE", "65929970480"), Some(false));
    assert_eq!(r.validate("SE", "811228-9874"), Some(true));
    assert_eq!(r.validate("SE", "811228-9875"), Some(false));
    assert_eq!(r.validate("SE", "8112289874"), Some(false));
    assert_eq!(r.validate("SE", "811328-9874"), Some(false));
    assert_eq!(r.validate("SE", "811200-9874"), Some(false));
}

#[test]
fn personal_round_trip_for_every_listed_country() {
    let r = Registry::new();
    let mut rng = StdRng::seed_from_u64(1);
    let list = r.list_countries();
    assert_eq!(list.len(), 6);
    for w in list.windows(2) {
        assert!(w[0].0 < w[1].0);
    }
    assert!(list.contains(&("SE", "Sweden", "Personnummer")));
    assert!(list.contains(&("US", "United States", "SSN")));
    for (code, _, _) in list {
        assert!(r.is_supported(code));
        for _ in 0..100 {
            let id = r.generate(code, &GenOptions::default(), &mut rng).unwrap();
            assert_eq!(r.validate(code, &id), Some(true), "{} {}", code, id);
        }
    }
}

#[test]
fn generated_check_digits_follow_the_algorithm() {
    let r = Registry::new();
    let mut rng = StdRng::seed_from_u64(2);
    for _ in 0..50 {
        let id = r.generate("CA", &GenOptions::default(), &mut rng).unwrap();
        let d = digits_of(&id);
        assert_eq!(d.len(), 9);
        assert_eq!(luhn_check_digit(&d[..8]), d[8]);
        let id = r.generate("HR", &GenOptions::default(), &mut rng).unwrap();
        let d = digits_of(&id);
        assert_eq!(d.len(), 11);
        assert_eq!(iso7064_mod11_10(&d[..10]), d[10]);
        let id = r.generate("US", &GenOptions::default(), &mut rng).unwrap();
        assert_eq!(id.len(), 11);
        assert_eq!(&id[3..4], "-");
        assert_eq!(&id[6..7], "-");
    }
}

#[test]
fn swedish_number_follows_the_hints() {
    let r = Registry::new();
    let mut rng = StdRng::seed_from_u64(3);
    for _ in 0..100 {
        let opts = GenOptions { gender: Some(Gender::Male), year: Some(1987) };
        let id = r.generate("SE", &opts, &mut rng).unwrap();
        assert!(id.starts_with("87"));
        let parsed = r.parse("se", &id).unwrap();
        assert!(parsed.valid);
        assert_eq!(parsed.country_code, "SE");
        assert_eq!(parsed.code, id);
        assert_eq!(parsed.gender, Some(Gender::Male));
        assert_eq!(parsed.dob.as_deref(), Some(&id[..6]));

        let opts = GenOptions { gender: Some(Gender::Female), year: None };
        let id = r.generate("SE", &opts, &mut rng).unwrap();
        assert_eq!(r.parse("SE", &id).unwrap().gender, Some(Gender::Female));
        let month: u32 = id[2..4].parse().unwrap();
        let day: u32 = id[4..6].parse().unwrap();
        assert!((1..=12).contains(&month));
        assert!((1..=28).contains(&day));
    }
}

#[test]
fn build_swedish_number() {
    assert_eq!(build_se(81, 12, 28, &vec![9, 8, 7]), "811228-9874");
}

#[test]
fn parse_reports_validity_and_what_is_recorded() {
    let r = Registry::new();
    let p = r.parse("SE", "811228-9874").unwrap();
    assert!(p.valid);
    assert_eq!(p.gender, Some(Gender::Male));
    assert_eq!(p.dob.as_deref(), Some("811228"));
    let p = r.parse("SE", "811228-9875").unwrap();
    assert!(!p.valid);
    assert_eq!(p.gender, None);
    assert_eq!(p.dob, None);
    let p = r.parse("US", "446-72-2445").unwrap();
    assert!(p.valid);
    assert_eq!(p.country_code, "US");
    assert_eq!(p.code, "446-72-2445");
    assert_eq!(p.gender, None);
    assert_eq!(p.dob, None);
    assert!(r.parse("USA", "446-72-2445").is_none());
}

#[test]
fn personal_fallback_and_unsupported() {
    let r = Registry::new();
    let mut rng = StdRng::seed_from_u64(4);
    assert!(r.is_supported("qq"));
    let id = r.generate("qq", &GenOptions::default(), &mut rng).unwrap();
    assert_eq!(id.len(), 10);
    assert_eq!(r.validate("QQ", &id), Some(true));
    assert_eq!(r.validate("QQ", "12345"), Some(false));
    assert_eq!(r.validate("QQ", "1234567890123456"), Some(false));
    assert!(!r.is_supported("Q"));
    assert_eq!(r.validate("Q", "1234567890"), None);
    assert!(r.generate("Q1", &GenOptions::default(), &mut rng).is_none());
}

#[test]
fn gender_names() {
    assert_eq!(Gender::from_str_opt(Some("m")), Some(Gender::Male));
    assert_eq!(Gender::from_str_opt(Some("Male")), Some(Gender::Male));
    assert_eq!(Gender::from_str_opt(Some("F")), Some(Gender::Female));
    assert_eq!(Gender::from_str_opt(Some("female")), Some(Gender::Female));
    assert_eq!(Gender::from_str_opt(Some("x")), None);
    assert_eq!(Gender::from_str_opt(Some("")), None);
    assert_eq!(Gender::from_str_opt(None), None);
}

#[test]
fn personal_ids_accessor_gives_a_registry() {
    assert_eq!(idsmith::personal_ids().validate("US", "446-72-2445"), Some(true));
}
