use idsmith::checksum::{iso7064_mod11_10, luhn_check_digit};
use idsmith::company_id::generic;
use idsmith::company_id::{build_de, build_es, build_fr, build_gb, build_it, GenOptions, Registry};
use rand::rngs::StdRng;
use rand::SeedableRng;

fn digits_of(s: &str) -> Vec<u8> {
    s.bytes().map(|b| b - b'0').collect()
}

#[test]
fn build_gb_writes_the_weighted_check() {
    // 1*8 + 2*7 + 3*6 + 4*5 + 5*4 + 6*3 + 7*2 = 112; 112 % 97 = 15; 97 - 15 = 82
    assert_eq!(build_gb(&vec![1, 2, 3, 4, 5, 6, 7]), "GB123456782");
}

#[test]
fn build_gb_wraps_a_full_check_to_zero() {
    assert_eq!(build_gb(&vec![0, 0, 0, 0, 0, 0, 0]), "GB000000000");
}

#[test]
fn build_de_appends_the_iso7064_digit() {
    let d = vec![1, 3, 6, 6, 9, 5, 9, 7];
    assert_eq!(iso7064_mod11_10(&d), 6);
    assert_eq!(build_de(&d), "DE136695976");
}

#[test]
fn build_fr_writes_key_then_siren() {
    // SIREN 73282932 + Luhn digit 0 = 732829320; 732829320 % 97 = 43; (12 + 129) % 97 = 44
    let d = vec![7, 3, 2, 8, 2, 9, 3, 2];
    assert_eq!(luhn_check_digit(&d), 0);
    assert_eq!(build_fr(&d), "FR44732829320");
}

#[test]
fn build_it_appends_the_luhn_digit() {
    let d = vec![0, 0, 7, 4, 3, 1, 1, 0, 1, 5];
    assert_eq!(luhn_check_digit(&d), 7);
    assert_eq!(build_it(&d), "IT00743110157");
}

#[test]
fn build_es_appends_the_doubling_digit() {
    // 5,8,8,1,8,5,0 with places 1,3,5,7 doubled: 1+8+7+1+7+5+0 = 29 -> 1
    assert_eq!(build_es('A', &vec![5, 8, 8, 1, 8, 5, 0]), "A58818501");
}

#[test]
fn validate_known_numbers() {
    let r = Registry::new();
    assert_eq!(r.validate("GB", "GB123456782"), Some(true));
    assert_eq!(r.validate("gb", "GB 123 4567 82"), Some(true));
    assert_eq!(r.validate("GB", "123456782"), Some(true));
    assert_eq!(r.validate("DE", "DE136695976"), Some(true));
    assert_eq!(r.validate("DE", "136695976"), Some(true));
    assert_eq!(r.validate("FR", "FR44732829320"), Some(true));
    assert_eq!(r.validate("IT", "IT00743110157"), Some(true));
    assert_eq!(r.validate("it", "00743110157"), Some(true));
    assert_eq!(r.validate("ES", "A58818501"), Some(true));
}

#[test]
fn validate_rejects_wrong_check_digits() {
    let r = Registry::new();
    assert_eq!(r.validate("GB", "GB123456783"), Some(false));
    assert_eq!(r.validate("GB", "GB123456772"), Some(false));
    assert_eq!(r.validate("DE", "DE136695975"), Some(false));
    assert_eq!(r.validate("FR", "FR45732829320"), Some(false));
    assert_eq!(r.validate("FR", "FR54732829320"), Some(false));
    assert_eq!(r.validate("IT", "IT00743110158"), Some(false));
    assert_eq!(r.validate("ES", "A58818502"), Some(false));
}

#[test]
fn validate_rejects_wrong_shape() {
    let r = Registry::new();
    assert_eq!(r.validate("GB", "GB12345678"), Some(false));
    assert_eq!(r.validate("GB", ""), Some(false));
    assert_eq!(r.validate("DE", "DE13669597"), Some(false));
    assert_eq!(r.validate("DE", "de136695976"), Some(false));
    assert_eq!(r.validate("DE", "DE13669597A"), Some(false));
    assert_eq!(r.validate("FR", "FR4473282932"), Some(false));
    assert_eq!(r.validate("FR", "FRAB732829320"), Some(false));
    assert_eq!(r.validate("IT", "IT0074311015"), Some(false));
    assert_eq!(r.validate("ES", "A5881850"), Some(false));
    assert_eq!(r.validate("ES", "A5881850X"), Some(false));
    assert_eq!(r.validate("ES", "A5881A501"), Some(false));
    assert_eq!(r.validate("ES", "\u{e9}58818501"), Some(false));
    assert_eq!(r.validate("ES", "A-8818501"), Some(false));
}

#[test]
fn validate_generic_shapes() {
    let r = Registry::new();
    assert_eq!(r.validate("AT", "ATU12345678"), Some(true));
    assert_eq!(r.validate("at", "ATU12345678"), Some(true));
    assert_eq!(r.validate("AT", "ATU1234567"), Some(false));
    assert_eq!(r.validate("AT", "ATU1234567A"), Some(false));
    assert_eq!(r.validate("AT", "U12345678"), Some(false));
    assert_eq!(r.validate("US", "123456789"), Some(true));
    assert_eq!(r.validate("US", "12345678"), Some(false));
    assert_eq!(r.validate("IE", "IE1A2B3C4D"), Some(true));
    assert_eq!(r.validate("IE", "IE1A2B3C4-"), Some(false));
    assert_eq!(r.validate("GR", "EL123456789"), Some(true));
    assert_eq!(r.validate("GR", "GR123456789"), Some(false));
}

#[test]
fn validate_fallback_for_unlisted_letters() {
    let r = Registry::new();
    assert_eq!(r.validate("ZZ", "AB12345678"), Some(true));
    assert_eq!(r.validate("zz", "12345678"), Some(true));
    assert_eq!(r.validate("ZZ", "123456789012345"), Some(true));
    assert_eq!(r.validate("ZZ", "1234567"), Some(false));
    assert_eq!(r.validate("ZZ", "1234567890123456"), Some(false));
    assert_eq!(r.validate("ZZ", "12345-6789"), Some(false));
}

#[test]
fn unsupported_country_is_not_a_verdict() {
    let r = Registry::new();
    assert_eq!(r.validate("XYZ", "AB12345678"), None);
    assert_eq!(r.validate("", "AB12345678"), None);
    assert_eq!(r.validate("D", "AB12345678"), None);
    assert_eq!(r.validate("1A", "AB12345678"), None);
    assert_eq!(r.validate("\u{e9}\u{e9}", "AB12345678"), None);
    assert!(!r.is_supported("XYZ"));
    assert!(!r.is_supported("4Z"));
    let mut rng = StdRng::seed_from_u64(1);
    let opts = GenOptions { country: Some("XYZ".to_string()) };
    assert!(r.generate(&opts, &mut rng).is_none());
    assert!(generic::generate("XYZ", &mut rng).is_none());
    assert_eq!(generic::validate("XYZ", "AB12345678"), None);
}

#[test]
fn round_trip_for_every_listed_country() {
    let r = Registry::new();
    let mut rng = StdRng::seed_from_u64(42);
    for (code, _, _) in r.list_countries() {
        for _ in 0..100 {
            let opts = GenOptions { country: Some(code.to_string()) };
            let res = r.generate(&opts, &mut rng).unwrap();
            assert!(res.valid);
            assert_eq!(res.country_code, code);
            assert_eq!(r.validate(code, &res.code), Some(true), "{} {}", code, res.code);
        }
    }
}

#[test]
fn round_trip_for_a_drawn_country() {
    let r = Registry::new();
    let mut rng = StdRng::seed_from_u64(9);
    let listed: Vec<&str> = r.list_countries().iter().map(|e| e.0).collect();
    for _ in 0..300 {
        let res = r.generate(&GenOptions::default(), &mut rng).unwrap();
        assert!(listed.contains(&res.country_code.as_str()));
        assert_eq!(r.validate(&res.country_code, &res.code), Some(true));
    }
}

#[test]
fn round_trip_for_the_fallback() {
    let r = Registry::new();
    let mut rng = StdRng::seed_from_u64(2);
    for _ in 0..100 {
        let opts = GenOptions { country: Some("qq".to_string()) };
        let res = r.generate(&opts, &mut rng).unwrap();
        assert_eq!(res.country_code, "QQ");
        assert_eq!(res.country_name, "Country (QQ)");
        assert_eq!(res.name, "Business ID");
        assert_eq!(res.code.len(), 10);
        assert!(res.code.chars().all(|c| c.is_ascii_digit() || c.is_ascii_uppercase()));
        assert_eq!(r.validate("QQ", &res.code), Some(true));
    }
}

#[test]
fn generated_de_has_nine_digits_and_iso7064_check() {
    let r = Registry::new();
    let mut rng = StdRng::seed_from_u64(13);
    for _ in 0..100 {
        let opts = GenOptions { country: Some("DE".to_string()) };
        let res = r.generate(&opts, &mut rng).unwrap();
        assert_eq!(res.country_name, "Germany");
        assert_eq!(res.name, "USt-IdNr");
        assert!(res.code.starts_with("DE"));
        let d = digits_of(&res.code[2..]);
        assert_eq!(d.len(), 9);
        assert_eq!(d[8], iso7064_mod11_10(&d[..8]));
    }
}

#[test]
fn generated_gb_has_seven_digits_and_weighted_check() {
    let r = Registry::new();
    let mut rng = StdRng::seed_from_u64(17);
    for _ in 0..100 {
        let opts = GenOptions { country: Some("GB".to_string()) };
        let res = r.generate(&opts, &mut rng).unwrap();
        assert_eq!(res.country_name, "United Kingdom");
        assert_eq!(res.name, "VAT Number");
        assert!(res.code.starts_with("GB"));
        let d = digits_of(&res.code[2..]);
        assert_eq!(d.len(), 9);
        let weights = [8u32, 7, 6, 5, 4, 3, 2];
        let sum: u32 = d[..7].iter().zip(weights.iter()).map(|(&x, &w)| x as u32 * w).sum();
        let check = (97 - sum % 97) % 97;
        assert_eq!(check, d[7] as u32 * 10 + d[8] as u32);
    }
}

#[test]
fn generated_generic_follows_the_table() {
    let mut rng = StdRng::seed_from_u64(21);
    let res = generic::generate("at", &mut rng).unwrap();
    assert_eq!(res.country_code, "AT");
    assert_eq!(res.country_name, "Austria");
    assert_eq!(res.name, "UID");
    assert!(res.code.starts_with("ATU"));
    assert_eq!(res.code.len(), 11);
    assert!(res.code[3..].chars().all(|c| c.is_ascii_digit()));
    assert_eq!(generic::validate("AT", &res.code), Some(true));
}

#[test]
fn find_info_is_by_exact_code() {
    let info = generic::find_info("NL").unwrap();
    assert_eq!(info.country_name, "Netherlands");
    assert_eq!(info.name, "BTW");
    assert_eq!(info.prefix, "NL");
    assert_eq!(info.length, 12);
    assert!(!info.numeric_only);
    assert!(generic::find_info("nl").is_none());
    assert!(generic::find_info("GB").is_none());
}

#[test]
fn generic_list_keeps_the_table_order() {
    let list = generic::list_countries();
    assert_eq!(list.len(), 51);
    assert_eq!(list[0], ("AT", "Austria", "UID"));
    assert_eq!(list[50], ("SA", "Saudi Arabia", "VAT"));
}

#[test]
fn list_is_sorted_without_repeats_and_supported() {
    let r = Registry::new();
    let list = r.list_countries();
    assert_eq!(list.len(), 56);
    for w in list.windows(2) {
        assert!(w[0].0 < w[1].0);
    }
    assert_eq!(list[0].0, "AE");
    assert!(list.contains(&("GB", "United Kingdom", "VAT Number")));
    assert!(list.contains(&("ES", "Spain", "CIF")));
    assert!(list.contains(&("US", "United States", "EIN")));
    for (code, _, _) in &list {
        assert!(r.is_supported(code));
        assert!(r.is_supported(&code.to_lowercase()));
    }
}

#[test]
fn company_ids_accessor_gives_a_registry() {
    assert_eq!(idsmith::company_ids().validate("DE", "DE136695976"), Some(true));
}
