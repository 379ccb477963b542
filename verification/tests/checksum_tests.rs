use idsmith::checksum::{iso7064_mod11_10, luhn_check_digit, mod97_remainder};

#[test]
fn luhn_of_classic_payload() {
    assert_eq!(luhn_check_digit(&[7, 9, 9, 2, 7, 3, 9, 8, 7, 1]), 3);
}

#[test]
fn luhn_of_empty_payload_is_zero() {
    assert_eq!(luhn_check_digit(&[]), 0);
}

#[test]
fn iso7064_of_known_payload() {
    // 0794 has the check digit 5 under ISO 7064 MOD 11,10
    assert_eq!(iso7064_mod11_10(&[0, 7, 9, 4]), 5);
}

#[test]
fn mod97_of_rearranged_iban_is_one() {
    let rearranged: Vec<char> = "370400440532013000DE89".chars().collect();
    assert_eq!(mod97_remainder(&rearranged), 1);
}
