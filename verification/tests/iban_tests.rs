use idsmith::checksum::mod97_remainder;
use idsmith::iban::{
    format_iban, generate_iban, get_format, iban_check_digits, supported_countries, validate_iban,
    wrap_iban,
};
use rand::rngs::StdRng;
use rand::SeedableRng;

fn chars(s: &str) -> Vec<char> {
    s.chars().collect()
}

fn text(v: &[char]) -> String {
    v.iter().collect()
}

#[test]
fn check_digits_of_known_ibans() {
    assert_eq!(iban_check_digits(&chars("DE"), &chars("370400440532013000")), 89);
    assert_eq!(iban_check_digits(&chars("GB"), &chars("NWBK60161331926819")), 29);
    assert_eq!(iban_check_digits(&chars("NL"), &chars("ABNA0417164300")), 91);
}

#[test]
fn wrap_puts_country_check_and_account_together() {
    assert_eq!(text(&wrap_iban(&chars("DE"), &chars("370400440532013000"))), "DE89370400440532013000");
    assert_eq!(text(&wrap_iban(&chars("GB"), &chars("NWBK60161331926819"))), "GB29NWBK60161331926819");
}

#[test]
fn validate_known_ibans() {
    assert!(validate_iban("DE89370400440532013000"));
    assert!(validate_iban("GB29NWBK60161331926819"));
    assert!(validate_iban("NL91ABNA0417164300"));
    assert!(validate_iban("FR1420041010050500013M02606"));
    assert!(validate_iban("ES9121000418450200051332"));
    assert!(validate_iban("IT60X0542811101000000123456"));
    assert!(validate_iban("CH9300762011623852957"));
    assert!(validate_iban("BE68539007547034"));
    assert!(validate_iban("AT611904300234573201"));
    assert!(validate_iban("PT50000201231234567890154"));
    assert!(validate_iban("IE29AIBK93115212345678"));
    assert!(validate_iban("LU280019400644750000"));
    assert!(validate_iban("DK5000400440116243"));
    assert!(validate_iban("SE4550000000058398257466"));
    assert!(validate_iban("NO9386011117947"));
    assert!(validate_iban("FI2112345600000785"));
    assert!(validate_iban("PL61109010140000071219812874"));
    assert!(validate_iban("CZ6508000000192000145399"));
}

#[test]
fn validate_takes_the_code_as_written() {
    assert!(!validate_iban("DE89 3704 0044 0532 0130 00"));
    assert!(!validate_iban("de89370400440532013000"));
    assert!(!validate_iban(" DE89370400440532013000"));
}

#[test]
fn validate_rejects_broken_ibans() {
    assert!(!validate_iban(""));
    assert!(!validate_iban("D"));
    assert!(!validate_iban("DE"));
    assert!(!validate_iban("DE8937040044053201300"));
    assert!(!validate_iban("DE893704004405320130000"));
    assert!(!validate_iban("DE89370400440532013001"));
    assert!(!validate_iban("DE88370400440532013000"));
    assert!(!validate_iban("DE8937040044053201300A"));
    assert!(!validate_iban("DEX9370400440532013000"));
    assert!(!validate_iban("GB29NWB160161331926819"));
    assert!(!validate_iban("DE89-3704-0044-0532-0130-00"));
    assert!(!validate_iban("XX89370400440532013000"));
    assert!(!validate_iban("US89370400440532013000"));
    assert!(!validate_iban("\u{e9}\u{e9}89370400440532013000"));
}

#[test]
fn generated_de_iban_is_valid_until_corrupted() {
    let mut rng = StdRng::seed_from_u64(1);
    for _ in 0..100 {
        let code = generate_iban(Some("DE"), &mut rng).unwrap();
        assert_eq!(code.len(), 22);
        assert!(code.starts_with("DE"));
        assert!(validate_iban(&code));
        let last = code.chars().last().unwrap();
        let other = if last == '9' { '0' } else { ((last as u8) + 1) as char };
        let mut broken = code[..21].to_string();
        broken.push(other);
        assert!(!validate_iban(&broken), "{} {}", code, broken);
    }
}

#[test]
fn generated_ibans_leave_remainder_one() {
    let mut rng = StdRng::seed_from_u64(2);
    for country in supported_countries() {
        for _ in 0..100 {
            let code = generate_iban(Some(country), &mut rng).unwrap();
            assert!(code.starts_with(country));
            let rearranged: Vec<char> = code[4..].chars().chain(code[..4].chars()).collect();
            assert_eq!(mod97_remainder(&rearranged), 1, "{}", code);
            assert!(validate_iban(&code), "{}", code);
        }
    }
}

#[test]
fn generated_iban_for_a_drawn_country() {
    let mut rng = StdRng::seed_from_u64(3);
    let countries = supported_countries();
    let mut seen = std::collections::HashSet::new();
    for _ in 0..300 {
        let code = generate_iban(None, &mut rng).unwrap();
        assert!(countries.contains(&&code[..2]));
        assert!(validate_iban(&code));
        seen.insert(code[..2].to_string());
    }
    assert!(seen.len() > 5);
}

#[test]
fn generate_takes_small_letters_and_refuses_unknown_countries() {
    let mut rng = StdRng::seed_from_u64(4);
    let code = generate_iban(Some("gb"), &mut rng).unwrap();
    assert!(code.starts_with("GB"));
    assert_eq!(code.len(), 22);
    assert!(code[4..8].chars().all(|c| c.is_ascii_uppercase()));
    assert!(code[8..].chars().all(|c| c.is_ascii_digit()));
    assert_eq!(generate_iban(Some("xx"), &mut rng), Err("Unsupported country: XX".to_string()));
    assert_eq!(generate_iban(Some(""), &mut rng), Err("Unsupported country: ".to_string()));
    assert!(generate_iban(Some("DEU"), &mut rng).is_err());
}

#[test]
fn supported_countries_are_distinct_and_have_formats() {
    let list = supported_countries();
    assert_eq!(list.len(), 18);
    assert_eq!(list[0], "AT");
    assert!(list.contains(&"DE"));
    let unique: std::collections::HashSet<_> = list.iter().collect();
    assert_eq!(unique.len(), list.len());
    for c in list {
        let d = get_format(c).unwrap();
        assert_eq!(d.country_code, c);
        assert!(d.wraps_iban);
        assert!(d.is_well_formed());
    }
    assert!(get_format("ZZ").is_none());
}

#[test]
fn format_groups_by_four() {
    assert_eq!(format_iban("DE89370400440532013000"), "DE89 3704 0044 0532 0130 00");
    assert_eq!(format_iban("NL91ABNA0417164300"), "NL91 ABNA 0417 1643 00");
    assert_eq!(format_iban("ABCD"), "ABCD");
    assert_eq!(format_iban("ABCDE"), "ABCD E");
    assert_eq!(format_iban(""), "");
    assert_eq!(format_iban("   "), "");
}

#[test]
fn format_is_idempotent() {
    for raw in ["DE89370400440532013000", "D E8 9370 40044053 2013000", "AB", "ABCDEFGH", " A "] {
        let once = format_iban(raw);
        assert_eq!(format_iban(&once), once);
    }
    let mut rng = StdRng::seed_from_u64(5);
    for _ in 0..50 {
        let code = generate_iban(None, &mut rng).unwrap();
        let once = format_iban(&code);
        assert_eq!(format_iban(&once), once);
        assert!(validate_iban(&once.replace(' ', "")));
    }
}
