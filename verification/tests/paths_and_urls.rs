use spritecollab::decimal::{read_i32, read_i64, read_u16};
use spritecollab::url::{get_url, match_url, up, AssetType};
use spritecollab::util::{
    force_non_shiny_group, force_shiny_group, join_form, join_monster_and_form,
};

fn chars(s: &str) -> Vec<char> {
    s.chars().collect()
}

#[test]
fn join_form_pads_each_element_to_four_digits() {
    assert_eq!(join_form(&[1, 0, 25], false, '/'), "0001/0000/0025");
    assert_eq!(join_form(&[1, 0, 25], true, '/'), "/0001/0000/0025");
    assert_eq!(join_form(&[7], true, '-'), "-0007");
}

#[test]
fn join_form_of_an_empty_path_is_empty() {
    assert_eq!(join_form(&[], false, '/'), "");
    assert_eq!(join_form(&[], true, '/'), "");
}

#[test]
fn join_form_keeps_long_and_negative_numbers() {
    assert_eq!(join_form(&[12345], false, '/'), "12345");
    assert_eq!(join_form(&[-5], false, '/'), "-005");
    assert_eq!(join_form(&[i32::MIN], false, '/'), "-2147483648");
}

#[test]
fn join_monster_and_form_leads_with_the_monster() {
    assert_eq!(join_monster_and_form(25, &[], '/'), "0025");
    assert_eq!(join_monster_and_form(25, &[1, 0, 2], '/'), "0025/0001/0000/0002");
    assert_eq!(join_monster_and_form(1234, &[3], '-'), "1234-0003");
}

#[test]
fn force_non_shiny_group_clears_the_shiny_index_and_strips_zeros() {
    assert_eq!(force_non_shiny_group(&[3, 1, 2]), vec![3, 0, 2]);
    assert_eq!(force_non_shiny_group(&[3, 1]), vec![3]);
    assert_eq!(force_non_shiny_group(&[0, 1, 0]), Vec::<i32>::new());
    assert_eq!(force_non_shiny_group(&[5]), vec![5]);
    assert_eq!(force_non_shiny_group(&[]), Vec::<i32>::new());
}

#[test]
fn force_shiny_group_sets_the_shiny_index_and_pads() {
    assert_eq!(force_shiny_group(&[3, 0, 2]), vec![3, 1, 2]);
    assert_eq!(force_shiny_group(&[3]), vec![3, 1]);
    assert_eq!(force_shiny_group(&[]), vec![0, 1]);
}

#[test]
fn up_capitalizes_the_first_character() {
    assert_eq!(up("normal"), "Normal");
    assert_eq!(up("Happy"), "Happy");
    assert_eq!(up(""), "");
    assert_eq!(up("teary-eyed"), "Teary-Eyed");
    assert_eq!(up("ßa"), "SSa");
}

#[test]
fn get_url_of_every_kind() {
    let srv = "https://srv";
    let assets = "https://assets";
    let p = [1, 0];
    assert_eq!(
        get_url(AssetType::PortraitCreditsTxt, srv, assets, 25, &p),
        "https://srv/assets/portrait-credits-0025-0001-0000.txt"
    );
    assert_eq!(
        get_url(AssetType::SpriteCreditsTxt, srv, assets, 25, &p),
        "https://srv/assets/sprite-credits-0025-0001-0000.txt"
    );
    assert_eq!(
        get_url(AssetType::PortraitSheet, srv, assets, 25, &p),
        "https://srv/assets/portrait-0025-0001-0000.png"
    );
    assert_eq!(
        get_url(AssetType::PortraitRecolorSheet, srv, assets, 25, &[1, 1]),
        "https://srv/assets/portrait_recolor-0025-0001.png"
    );
    assert_eq!(
        get_url(AssetType::Portrait("normal"), srv, assets, 25, &p),
        "https://assets/portrait/0025/0001/0000/Normal.png"
    );
    assert_eq!(
        get_url(AssetType::PortraitFlipped("normal^"), srv, assets, 25, &p),
        "https://assets/portrait/0025/0001/0000/Normal^.png"
    );
    assert_eq!(
        get_url(AssetType::SpriteAnimDataXml, srv, assets, 25, &p),
        "https://assets/sprite/0025/0001/0000/AnimData.xml"
    );
    assert_eq!(
        get_url(AssetType::SpriteZip, srv, assets, 25, &p),
        "https://srv/assets/0025/0001/0000/sprites.zip"
    );
    assert_eq!(
        get_url(AssetType::SpriteRecolorSheet, srv, assets, 25, &[1]),
        "https://srv/assets/sprite_recolor-0025-0001-0001.png"
    );
    assert_eq!(
        get_url(AssetType::SpriteAnim("walk"), srv, assets, 25, &[]),
        "https://assets/sprite/0025/Walk-Anim.png"
    );
    assert_eq!(
        get_url(AssetType::SpriteOffsets("walk"), srv, assets, 25, &[]),
        "https://assets/sprite/0025/Walk-Offsets.png"
    );
    assert_eq!(
        get_url(AssetType::SpriteShadows("walk"), srv, assets, 25, &[]),
        "https://assets/sprite/0025/Walk-Shadow.png"
    );
}

#[test]
fn match_url_reads_every_route() {
    let m = match_url("/assets/portrait/credits/0025/0001.txt").unwrap();
    assert_eq!((m.0, m.1.clone()), (25, vec![1]));
    assert!(matches!(m.2, AssetType::PortraitCreditsTxt));
    let m = match_url("/assets/sprite/credits/0025.txt").unwrap();
    assert_eq!((m.0, m.1.clone()), (25, vec![]));
    assert!(matches!(m.2, AssetType::SpriteCreditsTxt));
    let m = match_url("/assets/portrait/0025/0000/0001.png").unwrap();
    assert_eq!((m.0, m.1.clone()), (25, vec![0, 1]));
    assert!(matches!(m.2, AssetType::PortraitSheet));
    let m = match_url("/assets/portrait_recolor/0025.png").unwrap();
    assert_eq!((m.0, m.1.clone()), (25, vec![]));
    assert!(matches!(m.2, AssetType::PortraitRecolorSheet));
    let m = match_url("/assets/0025/0003/sprites.zip").unwrap();
    assert_eq!((m.0, m.1.clone()), (25, vec![3]));
    assert!(matches!(m.2, AssetType::SpriteZip));
    let m = match_url("/assets/sprite_recolor/0025/0000/0001.png").unwrap();
    assert_eq!((m.0, m.1.clone()), (25, vec![0, 1]));
    assert!(matches!(m.2, AssetType::SpriteRecolorSheet));
}

#[test]
fn match_url_takes_dashes_for_slashes() {
    let m = match_url("/assets/sprite_recolor-0025-0000-0001.png").unwrap();
    assert_eq!((m.0, m.1.clone()), (25, vec![0, 1]));
    assert!(matches!(m.2, AssetType::SpriteRecolorSheet));
    let m = match_url("/assets/portrait-credits-0025.txt").unwrap();
    assert_eq!((m.0, m.1.clone()), (25, vec![]));
    assert!(matches!(m.2, AssetType::PortraitCreditsTxt));
}

#[test]
fn match_url_accepts_any_number_of_leading_zeros() {
    let m = match_url("/assets/portrait/000000025/1.png").unwrap();
    assert_eq!((m.0, m.1.clone()), (25, vec![1]));
    let m = match_url("assets/portrait/25.png").unwrap();
    assert_eq!((m.0, m.1.clone()), (25, vec![]));
}

#[test]
fn match_url_rejects_what_is_no_route() {
    assert!(match_url("/assets/sprites.zip").is_none());
    assert!(match_url("/assets/portrait/.png").is_none());
    assert!(match_url("/assets/portrait/abc.png").is_none());
    assert!(match_url("/assets/portrait/25//1.png").is_none());
    assert!(match_url("/assets/portrait/99999999999.png").is_none());
    assert!(match_url("/portrait/0025/Normal.png").is_none());
    assert!(match_url("/assets/portrait/credits/1.png").is_none());
    assert!(match_url("").is_none());
    assert!(match_url("/graphql").is_none());
}

#[test]
fn match_url_reads_back_what_get_url_wrote() {
    let kinds = [
        AssetType::PortraitCreditsTxt,
        AssetType::SpriteCreditsTxt,
        AssetType::PortraitSheet,
        AssetType::SpriteZip,
    ];
    for kind in kinds {
        for path in [vec![], vec![0], vec![1, 0, 2], vec![12345, 7]] {
            let url = get_url(kind, "", "", 25, &path);
            let m = match_url(&url).unwrap();
            assert_eq!(m.0, 25);
            assert_eq!(m.1, path);
            assert_eq!(format!("{:?}", m.2), format!("{:?}", kind));
        }
    }
    let url = get_url(AssetType::SpriteRecolorSheet, "", "", 25, &[3]);
    let m = match_url(&url).unwrap();
    assert_eq!((m.0, m.1.clone()), (25, vec![3, 1]));
    assert!(matches!(m.2, AssetType::SpriteRecolorSheet));
    let url = get_url(AssetType::PortraitRecolorSheet, "", "", 25, &[3, 1, 2]);
    let m = match_url(&url).unwrap();
    assert_eq!((m.0, m.1.clone()), (25, vec![3, 0, 2]));
    assert!(matches!(m.2, AssetType::PortraitRecolorSheet));
}

#[test]
fn numbers_are_read_as_the_standard_parser_reads_them() {
    for text in ["0", "007", "+5", "-5", "-0", "2147483647", "-2147483648", "2147483648", "", "+", "-", "1a", " 1", "١"] {
        assert_eq!(read_i32(&chars(text)), text.parse::<i32>().ok(), "{:?}", text);
        assert_eq!(read_i64(&chars(text)), text.parse::<i64>().ok(), "{:?}", text);
        assert_eq!(read_u16(&chars(text)), text.parse::<u16>().ok(), "{:?}", text);
    }
    assert_eq!(read_i64(&chars("9223372036854775807")), Some(i64::MAX));
    assert_eq!(read_i64(&chars("-9223372036854775808")), Some(i64::MIN));
    assert_eq!(read_i64(&chars("9223372036854775808")), None);
    assert_eq!(read_i64(&chars("000000000000000000000000000001")), Some(1));
    assert_eq!(read_u16(&chars("65535")), Some(65535));
    assert_eq!(read_u16(&chars("65536")), None);
}
