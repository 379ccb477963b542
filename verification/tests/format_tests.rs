use idsmith::format::{
    generate_with, parse_with, validate_with, CharClass, ChecksumAlgorithm, FieldSpec,
    FormatDescriptor, Role,
};
use idsmith::grouping::group_text;
use rand::rngs::StdRng;
use rand::SeedableRng;

fn field(class: CharClass, length: u8, role: Role) -> FieldSpec {
    FieldSpec { class, length, role }
}

fn luhn_account() -> FormatDescriptor {
    FormatDescriptor {
        country_code: "XA".to_string(),
        fields: vec![
            field(CharClass::Literal("AC-"), 3, Role::Prefix),
            field(CharClass::Digit, 4, Role::BankCode),
            field(CharClass::Digit, 2, Role::BranchCode),
            field(CharClass::Digit, 6, Role::AccountNumber),
            field(CharClass::Digit, 1, Role::CheckDigit),
        ],
        checksum: ChecksumAlgorithm::Luhn,
        wraps_iban: false,
    }
}

fn weighted() -> FormatDescriptor {
    FormatDescriptor {
        country_code: "XB".to_string(),
        fields: vec![
            field(CharClass::Digit, 7, Role::AccountNumber),
            field(CharClass::Digit, 2, Role::CheckDigit),
        ],
        checksum: ChecksumAlgorithm::WeightedMod97(vec![8, 7, 6, 5, 4, 3, 2]),
        wraps_iban: false,
    }
}

fn plain() -> FormatDescriptor {
    FormatDescriptor {
        country_code: "XC".to_string(),
        fields: vec![
            field(CharClass::UpperAlpha, 2, Role::Prefix),
            field(CharClass::AlphaNumeric, 6, Role::Free),
        ],
        checksum: ChecksumAlgorithm::NoChecksum,
        wraps_iban: false,
    }
}

fn wrapped() -> FormatDescriptor {
    FormatDescriptor {
        country_code: "DE".to_string(),
        fields: vec![
            field(CharClass::Digit, 8, Role::BankCode),
            field(CharClass::Digit, 10, Role::AccountNumber),
        ],
        checksum: ChecksumAlgorithm::Mod97Iban,
        wraps_iban: true,
    }
}

#[test]
fn well_formedness_is_decided() {
    assert!(luhn_account().is_well_formed());
    assert!(weighted().is_well_formed());
    assert!(plain().is_well_formed());
    assert!(wrapped().is_well_formed());

    let mut d = luhn_account();
    d.fields[0].length = 2;
    assert!(!d.is_well_formed());

    let mut d = luhn_account();
    d.fields.push(field(CharClass::Digit, 1, Role::CheckDigit));
    assert!(!d.is_well_formed());

    let mut d = luhn_account();
    d.fields.pop();
    assert!(!d.is_well_formed());

    let mut d = luhn_account();
    d.fields[4].length = 2;
    assert!(!d.is_well_formed());

    let mut d = luhn_account();
    d.fields[4].class = CharClass::UpperAlpha;
    assert!(!d.is_well_formed());

    let mut d = plain();
    d.fields.push(field(CharClass::Digit, 1, Role::CheckDigit));
    assert!(!d.is_well_formed());

    let mut d = wrapped();
    d.wraps_iban = false;
    assert!(!d.is_well_formed());

    let mut d = wrapped();
    d.country_code = "de".to_string();
    assert!(!d.is_well_formed());

    let mut d = wrapped();
    d.fields.push(field(CharClass::Literal("-"), 1, Role::Free));
    assert!(!d.is_well_formed());

    let mut d = plain();
    d.wraps_iban = true;
    assert!(!d.is_well_formed());
}

#[test]
fn validate_checks_shape_and_check_digit() {
    let d = luhn_account();
    // digits 1234 56 789012 -> Luhn digit 8
    assert!(validate_with(&d, "AC-1234567890128"));
    assert!(!validate_with(&d, "AC-1234567890127"));
    assert!(!validate_with(&d, "AC-123456789012"));
    assert!(!validate_with(&d, "AC-12345678901288"));
    assert!(!validate_with(&d, "AC+1234567890128"));
    assert!(!validate_with(&d, "AC-12345678901A8"));
    assert!(!validate_with(&d, ""));
}

#[test]
fn validate_weighted_check() {
    let d = weighted();
    assert!(validate_with(&d, "123456782"));
    assert!(!validate_with(&d, "123456783"));
    assert!(validate_with(&d, "000000000"));
    assert!(!validate_with(&d, "000000097"));
}

#[test]
fn validate_without_checksum_is_shape_only() {
    let d = plain();
    assert!(validate_with(&d, "ABx1Y2z3"));
    assert!(!validate_with(&d, "aBx1Y2z3"));
    assert!(!validate_with(&d, "AB-1Y2z3"));
    assert!(!validate_with(&d, "ABx1Y2z"));
}

#[test]
fn validate_wrapped_is_mod97() {
    let d = wrapped();
    assert!(validate_with(&d, "DE89370400440532013000"));
    assert!(!validate_with(&d, "DE89370400440532013001"));
    assert!(!validate_with(&d, "FR89370400440532013000"));
    assert!(!validate_with(&d, "DE8937040044053201300"));
    assert!(!validate_with(&d, "DE"));
}

#[test]
fn generated_codes_pass_validation() {
    let mut rng = StdRng::seed_from_u64(8);
    for d in [luhn_account(), weighted(), plain(), wrapped()] {
        assert!(d.is_well_formed());
        for _ in 0..200 {
            let code = generate_with(&d, &mut rng);
            assert!(validate_with(&d, &code), "{}", code);
        }
    }
}

#[test]
fn generated_literal_and_classes() {
    let mut rng = StdRng::seed_from_u64(9);
    let code = generate_with(&luhn_account(), &mut rng);
    assert!(code.starts_with("AC-"));
    assert_eq!(code.len(), 16);
    assert!(code[3..].chars().all(|c| c.is_ascii_digit()));
    let code = generate_with(&plain(), &mut rng);
    assert!(code[..2].chars().all(|c| c.is_ascii_uppercase()));
    assert!(code[2..].chars().all(|c| c.is_ascii_digit() || c.is_ascii_uppercase()));
}

#[test]
fn mutated_check_digit_fails() {
    let mut rng = StdRng::seed_from_u64(10);
    let d = luhn_account();
    for _ in 0..100 {
        let code = generate_with(&d, &mut rng);
        let last = code.chars().last().unwrap();
        for other in '0'..='9' {
            if other != last {
                let mut broken = code[..15].to_string();
                broken.push(other);
                assert!(!validate_with(&d, &broken));
            }
        }
    }
}

#[test]
fn parse_breaks_a_code_into_roles() {
    let p = parse_with(&luhn_account(), "AC-1234567890128").unwrap();
    assert_eq!(p.bank_code, "1234");
    assert_eq!(p.branch_code, "56");
    assert_eq!(p.account_number, "789012");
    assert_eq!(p.check_digits, "8");
    assert!(parse_with(&luhn_account(), "AC-1234567890127").is_none());
    assert!(parse_with(&luhn_account(), "nonsense").is_none());
}

#[test]
fn parse_of_a_wrapped_code_reads_the_iban_check() {
    let p = parse_with(&wrapped(), "DE89370400440532013000").unwrap();
    assert_eq!(p.bank_code, "37040044");
    assert_eq!(p.branch_code, "");
    assert_eq!(p.account_number, "0532013000");
    assert_eq!(p.check_digits, "89");
    assert!(parse_with(&wrapped(), "DE89370400440532013001").is_none());
}

#[test]
fn grouping_with_other_sizes_and_separators() {
    assert_eq!(group_text("4111111111111111", 4, ' '), "4111 1111 1111 1111");
    assert_eq!(group_text("123456789", 3, '-'), "123-456-789");
    assert_eq!(group_text("123-456-789", 3, '-'), "123-456-789");
    assert_eq!(group_text("1-2-3-4", 2, '-'), "12-34");
    assert_eq!(group_text("12345", 1, '.'), "1.2.3.4.5");
}
