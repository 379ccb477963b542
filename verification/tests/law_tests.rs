use idsmith::checksum::{
    es_cif_check, fr_vat_key, gb_vat_check, iso7064_mod11_10, luhn_check_digit, mod97_remainder,
    number_of, weighted_mod97_check,
};
use idsmith::company_id::Registry;
use idsmith::credit_card;
use idsmith::grouping::{group_text, group_text_at};
use idsmith::iban::{describe_iban, validate_iban};
use idsmith::listing::{distinct, insert_sorted, merge_sorted};

fn replace_at(s: &str, i: usize, c: char) -> String {
    let mut v: Vec<char> = s.chars().collect();
    v[i] = c;
    v.into_iter().collect()
}

#[test]
fn named_checks_on_known_digits() {
    assert_eq!(gb_vat_check(&[1, 2, 3, 4, 5, 6, 7]), 82);
    assert_eq!(gb_vat_check(&[1, 2, 3, 4, 5, 6, 7, 8, 2]), 82);
    assert_eq!(gb_vat_check(&[0, 0, 0, 0, 0, 0, 0]), 0);
    assert_eq!(weighted_mod97_check(&[1, 2, 3], &[1, 1, 1]), 91);
    assert_eq!(weighted_mod97_check(&[1, 2, 3, 9, 9], &[1, 1, 1]), 91);
    assert_eq!(weighted_mod97_check(&[], &[5]), 0);
    assert_eq!(fr_vat_key(732829320), 44);
    assert_eq!(fr_vat_key(0), 12);
    assert_eq!(es_cif_check(&[5, 8, 8, 1, 8, 5, 0]), 1);
    assert_eq!(es_cif_check(&[]), 0);
    assert_eq!(number_of(&[7, 3, 2, 8, 2, 9, 3, 2, 0]), 732829320);
    assert_eq!(number_of(&[]), 0);
    assert_eq!(number_of(&[9; 18]), 999_999_999_999_999_999);
}

#[test]
fn mod97_takes_letters_of_either_case() {
    let upper: Vec<char> = "NWBK60161331926819GB29".chars().collect();
    let lower: Vec<char> = "nwbk60161331926819gb29".chars().collect();
    assert_eq!(mod97_remainder(&upper), 1);
    assert_eq!(mod97_remainder(&lower), 1);
    assert_eq!(mod97_remainder(&[]), 0);
    assert_eq!(mod97_remainder(&['9', '8']), 1);
    assert_eq!(mod97_remainder(&['A']), 10);
    assert_eq!(mod97_remainder(&['Z', '0']), 350 % 97);
}

#[test]
fn luhn_sees_every_replaced_digit() {
    let payload = [7u8, 9, 9, 2, 7, 3, 9, 8, 7, 1];
    let check = luhn_check_digit(&payload);
    for i in 0..payload.len() {
        for v in 0..10u8 {
            if v != payload[i] {
                let mut p = payload;
                p[i] = v;
                assert_ne!(luhn_check_digit(&p), check);
            }
        }
    }
}

#[test]
fn luhn_misses_the_exchange_of_nine_and_zero() {
    assert_eq!(luhn_check_digit(&[1, 0, 9, 5]), luhn_check_digit(&[1, 9, 0, 5]));
}

#[test]
fn iso7064_sees_every_replaced_digit() {
    let payload = [1u8, 3, 6, 6, 9, 5, 9, 7];
    let check = iso7064_mod11_10(&payload);
    for i in 0..payload.len() {
        for v in 0..10u8 {
            if v != payload[i] {
                let mut p = payload;
                p[i] = v;
                assert_ne!(iso7064_mod11_10(&p), check);
            }
        }
    }
}

#[test]
fn company_numbers_with_one_replaced_digit_fail() {
    let r = Registry::new();
    for (country, code, first) in [
        ("GB", "GB123456782", 2),
        ("DE", "DE136695976", 2),
        ("FR", "FR44732829320", 2),
        ("IT", "IT00743110157", 2),
        ("ES", "A58818501", 1),
    ] {
        assert_eq!(r.validate(country, code), Some(true));
        for i in first..code.len() {
            let here = code.chars().nth(i).unwrap();
            for c in '0'..='9' {
                if c != here {
                    let broken = replace_at(code, i, c);
                    assert_eq!(r.validate(country, &broken), Some(false), "{}", broken);
                }
            }
        }
    }
}

#[test]
fn ibans_with_one_replaced_digit_fail() {
    for code in ["DE89370400440532013000", "GB29NWBK60161331926819", "NL91ABNA0417164300"] {
        assert!(validate_iban(code));
        for i in 0..code.len() {
            let here = code.chars().nth(i).unwrap();
            if here.is_ascii_digit() {
                for c in '0'..='9' {
                    if c != here {
                        assert!(!validate_iban(&replace_at(code, i, c)));
                    }
                }
            }
        }
    }
}

#[test]
fn iban_check_digits_that_differ_by_97_both_pass() {
    // 98 - 97 = 01 leaves the same remainder as 98
    let mut found = false;
    for account in 0..2000u32 {
        let bban = format!("37040044{:010}", account);
        let with_98 = format!("DE98{}", bban);
        if validate_iban(&with_98) {
            assert!(validate_iban(&format!("DE01{}", bban)));
            found = true;
            break;
        }
    }
    assert!(found);
}

#[test]
fn cards_with_one_replaced_digit_fail() {
    let r = credit_card::Registry::new();
    let number = "4111111111111111";
    assert!(r.validate(number));
    for i in 0..number.len() {
        for c in '0'..='9' {
            if c != number.chars().nth(i).unwrap() {
                assert!(!r.validate(&replace_at(number, i, c)));
            }
        }
    }
}

#[test]
fn formatting_twice_is_formatting_once() {
    for raw in ["", "1", "1234", "12345", "1 2 3 4 5 6 7 8 9", "12345678901234567890", "    "] {
        let once = group_text(raw, 4, ' ');
        assert_eq!(group_text(&once, 4, ' '), once);
        let once = group_text(raw, 3, ' ');
        assert_eq!(group_text(&once, 3, ' '), once);
        let once = group_text_at(raw, &[4, 10], ' ');
        assert_eq!(group_text_at(&once, &[4, 10], ' '), once);
    }
    assert_eq!(group_text_at("123456789012345", &[4, 10], ' '), "1234 567890 12345");
    assert_eq!(group_text_at("1234", &[4, 10], ' '), "1234");
    assert_eq!(group_text_at("12345", &[0, 4], ' '), "1234 5");
}

#[test]
fn describe_reads_an_iban() {
    let d = describe_iban("DE89370400440532013000");
    assert_eq!(d.country, "DE");
    assert_eq!(d.iban, "DE89370400440532013000");
    assert_eq!(d.formatted, "DE89 3704 0044 0532 0130 00");
    assert!(d.valid);
    let d = describe_iban("DE89 3704 0044 0532 0130 00");
    assert_eq!(d.iban, "DE89 3704 0044 0532 0130 00");
    assert_eq!(d.formatted, "DE89 3704 0044 0532 0130 00");
    assert!(!d.valid);
    let d = describe_iban("x");
    assert_eq!(d.country, "x");
    assert_eq!(d.iban, "x");
    assert!(!d.valid);
    let d = describe_iban("");
    assert_eq!(d.country, "");
    assert!(!d.valid);
}

#[test]
fn sorted_insertion_keeps_the_first_entry_of_a_code() {
    let mut list = vec![("AA", "a", "x"), ("CC", "c", "x")];
    insert_sorted(&mut list, ("BB", "b", "x"));
    assert_eq!(list, vec![("AA", "a", "x"), ("BB", "b", "x"), ("CC", "c", "x")]);
    insert_sorted(&mut list, ("BB", "other", "y"));
    assert_eq!(list.len(), 3);
    assert_eq!(list[1], ("BB", "b", "x"));
    insert_sorted(&mut list, ("A", "short", "x"));
    insert_sorted(&mut list, ("DD", "d", "x"));
    assert_eq!(list[0].0, "A");
    assert_eq!(list[4].0, "DD");
}

#[test]
fn merging_sorts_and_drops_later_entries_of_a_code() {
    let source = vec![("ZZ", "1", "x"), ("AA", "2", "x"), ("ZZ", "3", "x"), ("MM", "4", "x")];
    assert_eq!(merge_sorted(&source), vec![("AA", "2", "x"), ("MM", "4", "x"), ("ZZ", "1", "x")]);
    assert_eq!(merge_sorted(&Vec::new()), Vec::new());
}

#[test]
fn distinct_keeps_first_occurrences_in_order() {
    assert_eq!(distinct(&vec!["b", "a", "b", "c", "a"]), vec!["b", "a", "c"]);
    assert_eq!(distinct(&Vec::new()), Vec::<&str>::new());
}
