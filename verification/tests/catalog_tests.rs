use idsmith::catalog::{Catalog, CatalogEntry, Fallback};
use idsmith::format::{CharClass, ChecksumAlgorithm, FieldSpec, FormatDescriptor, Role};
use rand::rngs::StdRng;
use rand::SeedableRng;

fn entry(code: &'static str, name: &'static str, length: u8) -> CatalogEntry {
    CatalogEntry {
        code,
        country_name: name,
        format_name: "Number",
        descriptor: FormatDescriptor {
            country_code: code.to_string(),
            fields: vec![
                FieldSpec { class: CharClass::Digit, length, role: Role::AccountNumber },
                FieldSpec { class: CharClass::Digit, length: 1, role: Role::CheckDigit },
            ],
            checksum: ChecksumAlgorithm::Luhn,
            wraps_iban: false,
        },
    }
}

#[test]
fn catalog_is_refused_where_it_breaks_the_rules() {
    assert!(Catalog::new(vec![entry("AA", "A", 5)], None).is_some());
    assert!(Catalog::new(vec![entry("aa", "A", 5)], None).is_none());
    assert!(Catalog::new(vec![entry("AAA", "A", 5)], None).is_none());
    let mut e = entry("AA", "A", 5);
    e.descriptor.checksum = ChecksumAlgorithm::NoChecksum;
    assert!(Catalog::new(vec![e], None).is_none());
    let bad = Fallback { min_length: 5, max_length: 9, length: 10 };
    assert!(Catalog::new(Vec::new(), Some(bad)).is_none());
    let good = Fallback { min_length: 5, max_length: 9, length: 7 };
    assert!(Catalog::new(Vec::new(), Some(good)).is_some());
}

#[test]
fn catalog_first_entry_wins_and_list_is_sorted() {
    let c = Catalog::new(
        vec![entry("NB", "Second", 5), entry("NA", "First", 4), entry("NB", "Shadowed", 9)],
        None,
    )
    .unwrap();
    assert_eq!(c.list_countries(), vec![("NA", "First", "Number"), ("NB", "Second", "Number")]);
    assert_eq!(c.names_of("nb"), Some(("Second", "Number")));
    assert_eq!(c.names_of("NC"), None);
    let mut rng = StdRng::seed_from_u64(1);
    let code = c.generate("NB", &mut rng).unwrap();
    assert_eq!(code.len(), 6);
    assert_eq!(c.validate("nb", &code), Some(true));
    let parsed = c.parse("NB", &code).unwrap().unwrap();
    assert_eq!(parsed.account_number, &code[..5]);
    assert_eq!(parsed.check_digits, &code[5..]);
    assert_eq!(c.parse("NB", "12345").unwrap().map(|p| p.account_number), None);
}

#[test]
fn catalog_without_fallback_supports_only_its_entries() {
    let c = Catalog::new(vec![entry("NA", "First", 4)], None).unwrap();
    let mut rng = StdRng::seed_from_u64(2);
    assert!(c.is_supported("na"));
    assert!(!c.is_supported("NB"));
    assert_eq!(c.validate("NB", "12345678"), None);
    assert!(c.generate("NB", &mut rng).is_none());
    assert!(c.parse("NB", "12345678").is_none());
}

#[test]
fn catalog_with_fallback_supports_every_two_letters() {
    let fb = Fallback { min_length: 4, max_length: 6, length: 5 };
    let c = Catalog::new(vec![entry("NA", "First", 4)], Some(fb)).unwrap();
    let mut rng = StdRng::seed_from_u64(3);
    assert!(c.is_supported("NB"));
    assert!(!c.is_supported("N1"));
    let code = c.generate("nb", &mut rng).unwrap();
    assert_eq!(code.len(), 5);
    assert_eq!(c.validate("NB", &code), Some(true));
    assert_eq!(c.validate("NB", "123"), Some(false));
    assert_eq!(c.validate("NB", "1234567"), Some(false));
    assert_eq!(c.validate("NB", "12-45"), Some(false));
    let parsed = c.parse("NB", "abc12").unwrap().unwrap();
    assert_eq!(parsed.account_number, "abc12");
    assert_eq!(parsed.bank_code, "");
}
