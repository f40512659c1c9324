use amf_store::library::{
    Avm2Domain, Bitmap, Character, Font, FontDescriptor, Graphic, MovieLibrary,
};
use amf_store::registry::{alias_to_class, class_to_alias, ClassRegistry};
use amf_store::point::{Point, PointDelta};

fn font(name: &str, bold: bool, italic: bool) -> Character {
    Character::Font(Font {
        descriptor: FontDescriptor {
            name: name.to_string(),
            is_bold: bold,
            is_italic: italic,
        },
    })
}

#[test]
fn register_and_look_up_characters() {
    let mut lib = MovieLibrary::new();
    lib.register_character(1, Character::Bitmap(Bitmap { width: 4, height: 8 }));
    lib.register_character(2, Character::Graphic(Graphic { shape_id: 9 }));
    lib.register_character(3, Character::Sound(77));
    assert!(lib.contains_character(1));
    assert!(!lib.contains_character(9));
    assert_eq!(lib.get_bitmap(1), Some(Bitmap { width: 4, height: 8 }));
    assert_eq!(lib.get_bitmap(2), None);
    assert_eq!(lib.get_graphic(2), Some(Graphic { shape_id: 9 }));
    assert_eq!(lib.get_sound(3), Some(77));
    assert!(lib.get_morph_shape(1).is_none());
    assert!(lib.get_text(1).is_none());
    assert_eq!(lib.characters().len(), 3);
}

#[test]
fn character_id_collision_keeps_first() {
    let mut lib = MovieLibrary::new();
    lib.register_character(5, Character::Sound(1));
    lib.register_character(5, Character::Sound(2));
    assert_eq!(lib.get_sound(5), Some(1));
}

#[test]
fn export_names_are_case_insensitive() {
    let mut lib = MovieLibrary::new();
    lib.register_character(7, Character::MovieClip);
    lib.register_export(7, "Hero".to_string());
    assert!(matches!(
        lib.character_by_export_name("hERO"),
        Some(Character::MovieClip)
    ));
    assert!(lib.character_by_export_name("villain").is_none());
    assert_eq!(lib.export_characters().len(), 1);
}

#[test]
fn first_font_with_descriptor_wins_and_name_fallback_works() {
    let mut lib = MovieLibrary::new();
    lib.register_character(1, font("Arial", false, false));
    lib.register_character(2, font("Arial", true, false));
    let exact = lib.get_font_by_name("Arial", true, false).expect("bold face registered");
    assert!(exact.descriptor.is_bold);
    // No italic face exists: fall back to the first font with the name.
    let fallback = lib.get_font_by_name("Arial", false, true).expect("fallback by name");
    assert!(!fallback.descriptor.is_bold);
    assert!(!fallback.descriptor.is_italic);
    assert!(lib.get_font_by_name("Courier", false, false).is_none());
    assert!(lib.get_font(1).is_some());
    assert!(lib.get_font(3).is_none());
}

#[test]
fn avm2_domain_round_trip() {
    let mut lib = MovieLibrary::new();
    assert!(lib.try_avm2_domain().is_none());
    lib.set_avm2_domain(Avm2Domain { domain_id: 11 });
    assert_eq!(lib.avm2_domain(), Avm2Domain { domain_id: 11 });
    assert_eq!(lib.try_avm2_domain(), Some(Avm2Domain { domain_id: 11 }));
    assert!(lib.jpeg_tables().is_none());
}

#[test]
fn point_and_delta_construction() {
    let p: Point<i32> = Point::new(3, -4);
    assert_eq!(p.x, 3);
    assert_eq!(p.y, -4);
    let d: PointDelta<i64> = PointDelta::new(10, 20);
    assert_eq!(d.dx, 10);
    assert_eq!(d.dy, 20);
}

#[test]
fn alias_resolution() {
    let mut registry = ClassRegistry::new();
    let thing = registry.register("com.example.Thing".to_string(), true);
    let other = registry.register("com.example.Other".to_string(), false);
    assert_eq!(alias_to_class(&registry, "com.example.Thing"), thing);
    assert_eq!(alias_to_class(&registry, "com.example.Other"), other);
    // Unregistered and empty aliases resolve to the generic base class.
    assert_eq!(alias_to_class(&registry, "com.example.Missing"), 0);
    assert_eq!(alias_to_class(&registry, ""), 0);
    assert_eq!(class_to_alias(&registry, thing), "com.example.Thing");
    assert_eq!(class_to_alias(&registry, 0), "");
    assert_eq!(class_to_alias(&registry, 99), "");
}
