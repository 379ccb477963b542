use idsmith::bank_account::{GenOptions, Registry};
use idsmith::iban::validate_iban;
use rand::rngs::StdRng;
use rand::SeedableRng;

#[test]
fn bank_round_trip_for_every_listed_country() {
    let r = Registry::new();
    let mut rng = StdRng::seed_from_u64(1);
    let list = r.list_countries();
    assert_eq!(list.len(), 21);
    for (code, name, format_name, has_iban) in list {
        assert!(r.is_supported(code));
        for _ in 0..100 {
            let res = r.generate(code, &GenOptions::default(), &mut rng).unwrap();
            assert!(res.valid);
            assert_eq!(res.country_code, code);
            assert_eq!(res.country_name, name);
            assert_eq!(res.format_name, format_name);
            assert_eq!(r.validate(code, &res.raw), Some(true), "{} {}", code, res.raw);
            assert_eq!(res.iban.is_some(), has_iban);
            if let Some(iban) = &res.iban {
                assert!(validate_iban(iban), "{}", iban);
                assert_eq!(&iban[..2], code);
                assert_eq!(&iban[2..4], res.check_digits);
                assert_eq!(&iban[4..], res.raw);
            } else {
                assert_eq!(res.check_digits, "");
            }
            assert_eq!(Some(res.formatted.clone()), r.format(code, &res.raw));
            assert_eq!(r.format(code, &res.formatted), Some(res.formatted.clone()));
        }
    }
}

#[test]
fn bank_list_is_sorted_and_flags_ibans() {
    let r = Registry::new();
    let list = r.list_countries();
    for w in list.windows(2) {
        assert!(w[0].0 < w[1].0);
    }
    assert!(list.contains(&("DE", "Germany", "BBAN", true)));
    assert!(list.contains(&("US", "United States", "ABA routing and account number", false)));
    assert!(list.contains(&("AU", "Australia", "BSB and account number", false)));
}

#[test]
fn bank_parts_of_a_german_account() {
    let r = Registry::new();
    let mut rng = StdRng::seed_from_u64(2);
    let res = r.generate("de", &GenOptions::default(), &mut rng).unwrap();
    assert_eq!(res.raw.len(), 18);
    assert_eq!(res.bank_code, &res.raw[..8]);
    assert_eq!(res.branch_code, "");
    assert_eq!(res.account_number, &res.raw[8..]);
    assert_eq!(res.iban.as_ref().unwrap().len(), 22);
}

#[test]
fn bank_parts_of_a_canadian_account() {
    let r = Registry::new();
    let mut rng = StdRng::seed_from_u64(3);
    let res = r.generate("CA", &GenOptions::default(), &mut rng).unwrap();
    assert_eq!(res.raw.len(), 15);
    assert_eq!(res.branch_code, &res.raw[..5]);
    assert_eq!(res.bank_code, &res.raw[5..8]);
    assert_eq!(res.account_number, &res.raw[8..]);
    assert!(res.iban.is_none());
}

#[test]
fn bank_code_override_is_used_where_it_fits() {
    let r = Registry::new();
    let mut rng = StdRng::seed_from_u64(4);
    let opts = GenOptions { bank_code: Some("37040044".to_string()) };
    let res = r.generate("DE", &opts, &mut rng).unwrap();
    assert_eq!(res.bank_code, "37040044");
    assert!(res.raw.starts_with("37040044"));
    assert!(validate_iban(res.iban.as_ref().unwrap()));

    let opts = GenOptions { bank_code: Some("NWBK".to_string()) };
    let res = r.generate("GB", &opts, &mut rng).unwrap();
    assert_eq!(res.bank_code, "NWBK");

    // a bank code of the wrong length or alphabet is passed over
    let opts = GenOptions { bank_code: Some("123".to_string()) };
    let res = r.generate("DE", &opts, &mut rng).unwrap();
    assert_eq!(res.bank_code.len(), 8);
    let opts = GenOptions { bank_code: Some("1234".to_string()) };
    let res = r.generate("GB", &opts, &mut rng).unwrap();
    assert!(res.bank_code.chars().all(|c| c.is_ascii_uppercase()));
    assert_eq!(r.validate("GB", &res.raw), Some(true));
}

#[test]
fn bank_validate_checks_the_shape() {
    let r = Registry::new();
    assert_eq!(r.validate("DE", "370400440532013000"), Some(true));
    assert_eq!(r.validate("de", "370400440532013000"), Some(true));
    assert_eq!(r.validate("DE", "37040044053201300"), Some(false));
    assert_eq!(r.validate("DE", "37040044053201300A"), Some(false));
    assert_eq!(r.validate("GB", "NWBK60161331926819"), Some(true));
    assert_eq!(r.validate("GB", "nwbk60161331926819"), Some(false));
    assert_eq!(r.validate("US", "0210000211234567890"), Some(true));
    assert_eq!(r.validate("US", "021000021123456789"), Some(false));
}

#[test]
fn bank_fallback_and_unsupported() {
    let r = Registry::new();
    let mut rng = StdRng::seed_from_u64(5);
    assert!(r.is_supported("zz"));
    let res = r.generate("zz", &GenOptions::default(), &mut rng).unwrap();
    assert_eq!(res.country_code, "ZZ");
    assert_eq!(res.country_name, "Country (ZZ)");
    assert_eq!(res.format_name, "Account number");
    assert_eq!(res.raw.len(), 12);
    assert_eq!(res.account_number, res.raw);
    assert_eq!(res.bank_code, "");
    assert!(res.iban.is_none());
    assert_eq!(r.validate("ZZ", &res.raw), Some(true));
    assert_eq!(r.validate("ZZ", "1234567"), Some(false));
    assert_eq!(r.validate("ZZ", "123456789012345678901"), Some(false));
    assert_eq!(r.validate("ZZ", "12345 678"), Some(false));

    assert!(!r.is_supported("ZZZ"));
    assert!(!r.is_supported("1Z"));
    assert_eq!(r.validate("ZZZ", "12345678"), None);
    assert!(r.generate("ZZZ", &GenOptions::default(), &mut rng).is_none());
    assert_eq!(r.format("ZZZ", "12345678"), None);
}

#[test]
fn bank_accounts_accessor_gives_a_registry() {
    assert!(idsmith::bank_accounts().is_supported("NL"));
}
