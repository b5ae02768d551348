use whois_president::domains::{
    generate_domain_names, normalize_str, remove_dashes, remove_spaces,
    replace_spaces_with_dashes, DomainName, DomainNameSet, PotentialCandidateDocument,
};

#[test]
fn test_normalize_str() {
    assert_eq!(normalize_str("Acigné"), "acigne");
}

#[test]
fn test_remove_spaces() {
    assert_eq!(remove_spaces("hel \t lo"), "hello");
}

#[test]
fn test_replace_spaces_with_dashes() {
    assert_eq!(replace_spaces_with_dashes("hel \t lo"), "hel-lo");
}

#[test]
fn test_remove_dashes() {
    assert_eq!(remove_dashes("-h-i-"), "hi");
}

#[test]
fn test_generate_domain_names() {
    let dn = generate_domain_names("Jean-Yves", "Le Drian");
    assert_eq!(dn.len(), 4);
    assert!(dn.contains("ledrian2022.fr"));
    assert!(dn.contains("le-drian2022.fr"));
    assert!(dn.contains("jeanyvesledrian2022.fr"));
    assert!(dn.contains("jean-yves-le-drian2022.fr"));
}

#[test]
fn normalize_transliterates_and_lowers() {
    assert_eq!(normalize_str("Éric ZEMMOUR"), "eric zemmour");
    assert_eq!(normalize_str("Mélenchon"), "melenchon");
}

#[test]
fn spaces_at_the_ends_and_unicode_spaces() {
    assert_eq!(remove_spaces("  a\u{a0}b\u{3000} "), "ab");
    assert_eq!(replace_spaces_with_dashes("  a\u{a0}\u{2003}b "), "-a-b-");
    assert_eq!(replace_spaces_with_dashes(""), "");
    assert_eq!(remove_spaces("\n\t"), "");
}

#[test]
fn remove_dashes_keeps_other_characters() {
    assert_eq!(remove_dashes("le-drian de la-tour"), "ledrian de latour");
    assert_eq!(remove_dashes("---"), "");
}

#[test]
fn equal_variants_are_held_once() {
    // Without dashes or spaces in the last name, both last-name variants coincide.
    let dn = generate_domain_names("Anne", "Hidalgo");
    assert_eq!(dn.len(), 3);
    assert!(dn.contains("hidalgo2022.fr"));
    assert!(dn.contains("annehidalgo2022.fr"));
    assert!(dn.contains("anne-hidalgo2022.fr"));
    assert!(!dn.contains("anne hidalgo2022.fr"));
}

#[test]
fn generated_names_end_with_suffix_and_hold_no_space() {
    let dn = generate_domain_names(" Jean  Luc ", "Mé-len chon");
    for n in dn.into_vec() {
        assert!(n.ends_with("2022.fr"));
        assert!(!n.chars().any(|c| c.is_whitespace()));
    }
}

#[test]
fn domain_name_set_holds_each_name_once() {
    let mut s = DomainNameSet::new();
    assert_eq!(s.len(), 0);
    assert!(s.insert(String::from("a.fr")));
    assert!(!s.insert(String::from("a.fr")));
    assert!(s.insert(String::from("b.fr")));
    assert_eq!(s.len(), 2);
    assert!(s.contains("b.fr"));
    assert!(!s.contains("c.fr"));
}

#[test]
fn only_missing_names_are_added() {
    let c = PotentialCandidateDocument {
        id: [0; 12],
        first_name: String::from("Jean-Yves"),
        last_name: String::from("Le Drian"),
        domain_names: vec![
            DomainName::new(String::from("ledrian2022.fr")),
            DomainName::new(String::from("other.fr")),
        ],
    };
    assert!(c.has_domain_name("other.fr"));
    assert!(!c.has_domain_name("le-drian2022.fr"));
    let mut added: Vec<String> = c.domain_names_to_add().into_iter().map(|d| d.name).collect();
    added.sort();
    assert_eq!(
        added,
        vec![
            String::from("jean-yves-le-drian2022.fr"),
            String::from("jeanyvesledrian2022.fr"),
            String::from("le-drian2022.fr"),
        ]
    );
}

#[test]
fn after_the_additions_every_generated_name_is_listed() {
    let mut c = PotentialCandidateDocument {
        id: [1; 12],
        first_name: String::from("Anne"),
        last_name: String::from("Hidalgo"),
        domain_names: vec![DomainName::new(String::from("hidalgo2022.fr"))],
    };
    let added = c.domain_names_to_add();
    c.domain_names.extend(added);
    assert!(c.domain_names_to_add().is_empty());
    assert_eq!(c.domain_names.len(), 3);
}

#[test]
fn normalizing_twice_is_normalizing_once() {
    assert_eq!(normalize_str("Macron"), "macron");
    for s in ["Jean-Yves", "Le Drian", "ÉLISABETH Borne", "北亰"] {
        let once = normalize_str(s);
        assert!(once.is_ascii());
        assert!(!once.chars().any(|c| c.is_ascii_uppercase()));
        assert_eq!(normalize_str(&once), once);
    }
}

#[test]
fn dash_replacement_laws() {
    for s in ["Le  Drian", " a - b ", "x\t-\ny", "", "-", "plain"] {
        let r = replace_spaces_with_dashes(s);
        assert_eq!(replace_spaces_with_dashes(&r), r);
        assert_eq!(remove_dashes(&r), remove_spaces(&remove_dashes(s)));
        assert_eq!(remove_spaces(&remove_spaces(s)), remove_spaces(s));
        assert_eq!(remove_dashes(&remove_dashes(s)), remove_dashes(s));
    }
}

#[test]
fn generated_names_are_lower_case_ascii() {
    let dn = generate_domain_names("ÉLISABETH", "Borne");
    assert!(dn.len() >= 2 && dn.len() <= 4);
    assert!(dn.contains("borne2022.fr"));
    assert!(dn.contains("elisabeth-borne2022.fr"));
    for n in dn.into_vec() {
        assert!(n.is_ascii());
        assert!(!n.chars().any(|c| c.is_ascii_uppercase()));
    }
}

#[test]
fn ascii_names_are_only_lower_cased() {
    assert_eq!(normalize_str("Emmanuel MACRON"), "emmanuel macron");
    let dn = generate_domain_names("Emmanuel", "Macron");
    assert_eq!(dn.len(), 3);
    assert!(dn.contains("macron2022.fr"));
    assert!(dn.contains("emmanuelmacron2022.fr"));
    assert!(dn.contains("emmanuel-macron2022.fr"));
}
