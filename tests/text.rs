use rustmc::chat::{ChatColor, ChatComponent};
use rustmc::utils::{hex_digest_of, mc_hex_digest, mc_twos_comp, to_hex_string, Location, Vec3};
use rustmc::world::World;

#[test]
fn hex_string_two_digits_per_byte() {
    assert_eq!(to_hex_string(vec![0x00, 0xab, 0x10, 0xff]), "00ab10ff");
    assert_eq!(to_hex_string(vec![]), "");
}

#[test]
fn twos_complement_negates() {
    let mut b = vec![0x00, 0x01];
    mc_twos_comp(&mut b);
    assert_eq!(b, vec![0xff, 0xff]);
    let mut z = vec![0x00, 0x00];
    mc_twos_comp(&mut z);
    assert_eq!(z, vec![0x00, 0x00]);
    let mut m = vec![0x80, 0x00];
    mc_twos_comp(&mut m);
    assert_eq!(m, vec![0x80, 0x00]);
    let mut x = vec![0x12, 0x30];
    mc_twos_comp(&mut x);
    assert_eq!(x, vec![0xed, 0xd0]);
}

#[test]
fn digest_text_of_hashes() {
    assert_eq!(hex_digest_of(vec![0x00, 0x0f]), "f");
    assert_eq!(hex_digest_of(vec![0xff, 0xff]), "-1");
    assert_eq!(hex_digest_of(vec![0x12, 0x30]), "1230");
}

#[test]
fn session_digests_of_names() {
    assert_eq!(mc_hex_digest("Notch"), "4ed1f46bbe04bc756bcb17c0c7ce3e4632f06a48");
    assert_eq!(mc_hex_digest("jeb_"), "-7c9d5b0044c130109a5d7b5fb5c317c02b4e28c1");
    assert_eq!(mc_hex_digest("simon"), "88e16a1019277b15d58faf0541e11910eb756f6");
}

#[test]
fn color_names() {
    assert_eq!(ChatComponent::color_to_str(ChatColor::Gold), "gold");
    assert_eq!(ChatComponent::color_to_str(ChatColor::DarkRed), "dark_red");
    assert_eq!(ChatComponent::color_to_str(ChatColor::LightPurple), "light_purple");
    assert_eq!(ChatComponent::color_to_str(ChatColor::NoColor), "");
}

#[test]
fn chat_components_start_plain() {
    let c = ChatComponent::new("hi".to_string());
    assert_eq!(c.text, "hi");
    assert_eq!(c.color, ChatColor::NoColor);
    assert!(c.extra.is_empty() && !c.bold && !c.reset);
    let u = rustmc::utils::ChatComponent::new("yo".to_string());
    assert_eq!(u.color, "none");
    assert!(u.children.is_empty());
    assert!(rustmc::utils::ChatComponent::build().is_none());
}

#[test]
fn players_load_at_origin() {
    let w = World::load_world();
    let p = w.load_player("Steve".to_string());
    assert_eq!(p.username, "Steve");
    assert_eq!((p.position.x, p.position.y, p.position.z, p.position.pitch, p.position.yaw), (0, 0, 0, 0, 0));
    let l = Location::new(1, 2, 3, 4, 5);
    assert_eq!((l.x, l.yaw), (1, 5));
    let v = Vec3::new(1, -2, 3);
    assert_eq!((v.x, v.y, v.z), (1, -2, 3));
}


#[test]
fn status_document_writes_numbers_in_decimal() {
    let info = rustmc::status::StatusInfo {
        version_name: "\"v\"".to_string(),
        protocol: -2147483648,
        max_players: 0,
        online: 1234567,
        description: "{}".to_string(),
    };
    assert_eq!(
        rustmc::status::status_json(&info),
        "{\"version\":{\"name\":\"v\",\"protocol\":-2147483648},\"players\":{\"max\":0,\"online\":1234567,\"sample\":[]},\"description\":{}}"
    );
}
