use melody::hawaiian::{
    build_vowel_pairs, build_vowels, capitalize, first_invalid_char, pronounce, validize_word,
};
use melody::jukebox;
use melody::dice;

#[test]
fn vowel_tables_hold_the_pronunciations() {
    let v = build_vowels();
    assert_eq!(v.len(), 5);
    assert_eq!(v[0], ("a", "ah"));
    assert_eq!(v[4], ("u", "oo"));
    let p = build_vowel_pairs();
    assert_eq!(p.len(), 10);
    assert_eq!(p[0], ("ai", "eye"));
    assert_eq!(p[9], ("ui", "ooey"));
}

#[test]
fn capitalize_uppercases_the_first_letter() {
    assert_eq!(capitalize("hello"), "Hello");
    assert_eq!(capitalize("aloha kakou"), "Aloha kakou");
    assert_eq!(capitalize(""), "");
}

#[test]
fn pronounce_translates_vowels_with_dashes() {
    let v = build_vowels();
    let p = build_vowel_pairs();
    assert_eq!(pronounce("aloha", &v, &p), "Ah-loh-hah");
}

#[test]
fn pronounce_prefers_vowel_pairs() {
    let v = build_vowels();
    let p = build_vowel_pairs();
    assert_eq!(pronounce("ai", &v, &p), "Eye");
    assert_eq!(pronounce("kai", &v, &p), "Keye");
}

#[test]
fn pronounce_lowercases_its_input() {
    let v = build_vowels();
    let p = build_vowel_pairs();
    assert_eq!(pronounce("ALOHA", &v, &p), pronounce("aloha", &v, &p));
}

#[test]
fn hawaiian_words_validate() {
    assert!(validize_word("aloha"));
    assert!(validize_word("Humuhumunukunukuapua'a"));
    assert!(!validize_word("xyz"));
    assert_eq!(first_invalid_char("aloXwa"), Some('x'));
    assert_eq!(first_invalid_char("aloha"), None);
}

#[test]
fn song_files_live_under_the_assets_directory() {
    assert_eq!(jukebox::create_file_name("twinkle"), "assets/songtxts/twinkle.txt");
    assert_eq!(jukebox::create_file_name(""), "assets/songtxts/.txt");
}

#[test]
fn phrase_files_name_instrument_part_phrase_and_roll() {
    assert_eq!(dice::phrase_file_name("piano", "trio", 2, 5), "assets/piano/trio2-5.wav");
    assert_eq!(dice::phrase_file_name("mbira", "minuet", 15, 11), "assets/mbira/minuet15-11.wav");
}

#[test]
fn minuet_phrases_roll_two_dice() {
    for phrase in 0..16u64 {
        let name = dice::create_file_name("violin", "minuet", phrase);
        let prefix = format!("assets/violin/minuet{}-", phrase);
        assert!(name.starts_with(&prefix));
        assert!(name.ends_with(".wav"));
        let roll: u64 = name[prefix.len()..name.len() - 4].parse().unwrap();
        assert!((2..12).contains(&roll));
    }
}

#[test]
fn trio_phrases_roll_one_die() {
    for phrase in 0..16u64 {
        let name = dice::create_file_name("flute-harp", "trio", phrase);
        let prefix = format!("assets/flute-harp/trio{}-", phrase);
        assert!(name.starts_with(&prefix));
        let roll: u64 = name[prefix.len()..name.len() - 4].parse().unwrap();
        assert!((1..6).contains(&roll));
    }
}
