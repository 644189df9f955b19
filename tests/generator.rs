use yapg::strength::entropy_bits;
use yapg::{CharsetSpec, GeneratorError, PasswordGenerator, DEFAULT_LENGTH};

#[test]
fn generate_has_length_and_alphabet() {
    let alphabet = CharsetSpec::std64().construct();
    let pwg = PasswordGenerator::new(alphabet.clone(), 30);
    let pw = pwg.generate().unwrap();
    assert_eq!(pw.chars().count(), 30);
    assert!(pw.chars().all(|c| alphabet.contains(&c)));
}

#[test]
fn generate_from_text_two_letters() {
    let pwg = PasswordGenerator::from_text("ab").length(10);
    let pass = pwg.generate().unwrap();
    assert_eq!(pass.len(), 10);
    assert_eq!(pass.to_ascii_lowercase(), pass);
    assert!(pass.chars().all(|c| c == 'a' || c == 'b'));

    let pass_vec = pwg.length(2).generate_n(2).unwrap();
    assert_eq!(pass_vec.len(), 2);
    let permutations = vec!["aa".to_string(), "ab".to_string(), "ba".to_string(), "bb".to_string()];
    assert!(permutations.contains(&pass_vec[0]));
    assert!(permutations.contains(&pass_vec[1]));
}

#[test]
fn singleton_alphabet_repeats_its_character() {
    let pwg = PasswordGenerator::new(vec!['x'], 5);
    assert_eq!(pwg.generate().unwrap(), "xxxxx");
}

#[test]
fn zero_length_gives_empty_password() {
    let pwg = PasswordGenerator::new(vec!['x', 'y'], 0);
    assert_eq!(pwg.generate().unwrap(), "");
    let pwg = PasswordGenerator::new(vec![], 0);
    assert_eq!(pwg.generate().unwrap(), "");
}

#[test]
fn empty_alphabet_is_an_error() {
    let pwg = PasswordGenerator::new(vec![], 4);
    assert_eq!(pwg.generate(), Err(GeneratorError::EmptyAlphabet));
    assert_eq!(pwg.generate_n(3), Err(GeneratorError::EmptyAlphabet));
    let pwg = PasswordGenerator::from_chars(CharsetSpec::empty().construct());
    assert_eq!(pwg.generate(), Err(GeneratorError::EmptyAlphabet));
}

#[test]
fn generate_n_count_and_contents() {
    let pwg = PasswordGenerator::new(vec!['0', '1', '2'], 7);
    let batch = pwg.generate_n(25).unwrap();
    assert_eq!(batch.len(), 25);
    for pw in &batch {
        assert_eq!(pw.chars().count(), 7);
        assert!(pw.chars().all(|c| c == '0' || c == '1' || c == '2'));
    }
    assert_eq!(pwg.generate_n(0).unwrap().len(), 0);
}

#[test]
fn password_from_picks_maps_indices() {
    let pwg = PasswordGenerator::new(vec!['q', 'r', 's'], 4);
    assert_eq!(pwg.password_from_picks(&vec![2, 0, 0, 1]), "sqqr");
    assert_eq!(pwg.password_from_picks(&vec![]), "");
}

#[test]
fn default_length_and_getters() {
    let pwg = PasswordGenerator::from_chars(vec!['a', 'a', 'b']);
    assert_eq!(pwg.password_len(), DEFAULT_LENGTH);
    assert_eq!(pwg.password_len(), 20);
    assert_eq!(pwg.charset_len(), 3);
    let pwg = PasswordGenerator::from_text("ééa");
    assert_eq!(pwg.charset_len(), 3);
    assert_eq!(pwg.generate().unwrap().chars().count(), 20);
}

#[test]
fn entropy_of_two_letters() {
    let pwg = PasswordGenerator::from_text("ab").length(10);
    assert_eq!(pwg.entropy(), 10);
}

#[test]
fn entropy_of_presets() {
    let std = PasswordGenerator::new(CharsetSpec::std64().construct(), 20);
    assert_eq!(std.entropy(), 120);
    let printable = PasswordGenerator::new(CharsetSpec::printable_ascii().construct(), 24);
    assert_eq!(printable.entropy(), 157);
}

#[test]
fn entropy_is_floor_of_log2() {
    assert_eq!(PasswordGenerator::new(vec!['a', 'b', 'c'], 2).entropy(), 3);
    assert_eq!(PasswordGenerator::new(vec!['a', 'b', 'c'], 1).entropy(), 1);
    let ten: Vec<char> = "0123456789".chars().collect();
    assert_eq!(PasswordGenerator::new(ten.clone(), 3).entropy(), 9);
    assert_eq!(PasswordGenerator::new(ten, 24).entropy(), 79);
}

#[test]
fn entropy_zero_cases() {
    assert_eq!(PasswordGenerator::new(vec!['x'], 50).entropy(), 0);
    assert_eq!(PasswordGenerator::new(vec!['x', 'y', 'z'], 0).entropy(), 0);
    assert_eq!(PasswordGenerator::new(vec![], 0).entropy(), 0);
    assert_eq!(PasswordGenerator::new(vec![], 7).entropy(), 0);
}

#[test]
fn entropy_bits_large_values() {
    assert_eq!(entropy_bits(usize::MAX, 2), 127);
    assert_eq!(entropy_bits(usize::MAX, 1), 63);
    assert_eq!(entropy_bits(1 << 40, 3), 120);
    assert_eq!(entropy_bits(95, 1000), 6569);
    assert_eq!(entropy_bits(2, 0), 0);
}

#[test]
fn repeated_characters_weight_the_alphabet() {
    let pwg = PasswordGenerator::from_text("aab");
    assert_eq!(pwg.charset_len(), 3);
    assert_eq!(pwg.entropy(), 31);
    let pw = pwg.generate().unwrap();
    assert!(pw.chars().all(|c| c == 'a' || c == 'b'));
}

#[test]
fn conversions_use_default_length() {
    let pwg = PasswordGenerator::from("ab");
    assert_eq!(pwg.password_len(), 20);
    assert_eq!(pwg.entropy(), 20);
    let pwg = PasswordGenerator::from(vec!['a', 'b', 'c', 'd']);
    assert_eq!(pwg.password_len(), 20);
    assert_eq!(pwg.entropy(), 40);
}
