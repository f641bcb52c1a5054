use currawong::render::material::{
    MaterialInstanceRegistry, MeshInstanceAttribs, PbrInstanceAttribs, INSTANCE_STRIDE,
};
use currawong::render::material_id::{MaterialId, MaterialIdError};
use currawong::render::material_registry::MaterialRegistry;
use currawong::render::scene_resources::pbr_uniform;
use currawong::render::vertex_layout::VertexFormat;
use glam::{Mat4, Vec3, Vec4};

fn bits16(m: Mat4) -> [u32; 16] {
    m.to_cols_array().map(f32::to_bits)
}

fn bits4(v: Vec4) -> [u32; 4] {
    v.to_array().map(f32::to_bits)
}

#[test]
fn valid_id_round_trips() {
    let id = MaterialId::new("currawong:mat_bark").expect("valid id");
    assert_eq!(id.as_str(), "currawong:mat_bark");
    assert_eq!(id.namespace(), "currawong");
    assert_eq!(id.name(), "mat_bark");
}

#[test]
fn missing_separator_rejected() {
    let err = MaterialId::new("Lumber").expect_err("must reject unnamespaced name");
    assert_eq!(err, MaterialIdError::MissingSeparator);
}

#[test]
fn multiple_separators_rejected() {
    assert_eq!(
        MaterialId::new("a:b:c").unwrap_err(),
        MaterialIdError::MultipleSeparators,
    );
}

#[test]
fn empty_halves_rejected() {
    assert_eq!(
        MaterialId::new(":name").unwrap_err(),
        MaterialIdError::EmptyNamespace,
    );
    assert_eq!(
        MaterialId::new("ns:").unwrap_err(),
        MaterialIdError::EmptyName,
    );
}

#[test]
fn invalid_chars_rejected() {
    assert_eq!(
        MaterialId::new("Currawong:mat_bark").unwrap_err(),
        MaterialIdError::InvalidNamespace,
    );
    assert_eq!(
        MaterialId::new("currawong:Mat_Bark").unwrap_err(),
        MaterialIdError::InvalidName,
    );
    assert_eq!(
        MaterialId::new("currawong:1mat").unwrap_err(),
        MaterialIdError::InvalidName,
    );
}

#[test]
fn empty_registry_misses_everything() {
    let reg: MaterialRegistry<u32> = MaterialRegistry::new();
    assert!(reg.is_empty());
    assert_eq!(reg.len(), 0);
    let id = MaterialId::new("currawong:mat_bark").unwrap();
    assert!(reg.get(&id).is_none());
    assert!(reg.get_by_name("currawong:mat_bark").is_none());
    assert!(reg.get_by_name("Lumber").is_none());
}

#[test]
fn material_registry_register_then_lookup() {
    let mut reg = MaterialRegistry::new();
    let bark = MaterialId::new("currawong:mat_bark").unwrap();
    let stone = MaterialId::new("currawong:mat_stone").unwrap();
    reg.register(bark.clone(), 1u32);
    reg.register(stone.clone(), 2u32);

    assert_eq!(reg.len(), 2);
    assert_eq!(reg.get(&bark), Some(&1));
    assert_eq!(reg.get(&stone), Some(&2));
    assert_eq!(reg.get_by_name("currawong:mat_bark"), Some(&1));
}

#[test]
fn material_registry_re_register_replaces() {
    let mut reg = MaterialRegistry::new();
    let id = MaterialId::new("currawong:mat_bark").unwrap();
    reg.register(id.clone(), 1u32);
    reg.register(id.clone(), 42u32);
    assert_eq!(reg.len(), 1);
    assert_eq!(reg.get(&id), Some(&42));
}

#[test]
fn get_by_name_misses_on_parse_failure() {
    let mut reg = MaterialRegistry::new();
    let id = MaterialId::new("currawong:mat_bark").unwrap();
    reg.register(id, 1u32);
    assert!(reg.get_by_name("Lumber").is_none());
    assert!(reg.get_by_name("currawong:mat_unregistered").is_none());
}

#[test]
fn get_by_name_defaults_bare_to_gltf_namespace() {
    let mut reg = MaterialRegistry::new();
    let id = MaterialId::new("gltf:lumber").unwrap();
    reg.register(id, 42u32);
    assert_eq!(reg.get_by_name("Lumber"), Some(&42));
    assert_eq!(reg.get_by_name("LUMBER"), Some(&42));
    assert_eq!(reg.get_by_name("lumber"), Some(&42));
    assert_eq!(reg.get_by_name("gltf:lumber"), Some(&42));
    assert!(reg.get_by_name("currawong:lumber").is_none());
}

#[test]
fn get_by_name_bare_with_invalid_chars_misses() {
    let mut reg = MaterialRegistry::new();
    let id = MaterialId::new("gltf:lumber").unwrap();
    reg.register(id, 1u32);
    assert!(reg.get_by_name("Lumber Camp").is_none());
    assert!(reg.get_by_name("3wood").is_none());
}

#[derive(Clone, Copy, PartialEq, Eq, Hash, Debug)]
enum MatId {
    Red,
    Gold,
}

struct FakeInstance(u32);

#[test]
fn empty_registry_has_no_instances() {
    let reg: MaterialInstanceRegistry<FakeInstance, MatId> = MaterialInstanceRegistry::new();
    assert!(reg.is_empty());
    assert_eq!(reg.len(), 0);
    assert!(reg.get(MatId::Red).is_none());
}

#[test]
fn material_register_then_lookup() {
    let mut reg = MaterialInstanceRegistry::new();
    reg.register(MatId::Red, FakeInstance(1));
    reg.register(MatId::Gold, FakeInstance(2));

    assert_eq!(reg.len(), 2);
    assert_eq!(reg.get(MatId::Red).map(|i| i.0), Some(1));
    assert_eq!(reg.get(MatId::Gold).map(|i| i.0), Some(2));
}

#[test]
fn material_re_register_replaces() {
    let mut reg = MaterialInstanceRegistry::new();
    reg.register(MatId::Red, FakeInstance(1));
    reg.register(MatId::Red, FakeInstance(99));
    assert_eq!(reg.len(), 1);
    assert_eq!(reg.get(MatId::Red).map(|i| i.0), Some(99));
}

#[test]
fn instances_can_be_changed_in_place() {
    let mut reg = MaterialInstanceRegistry::new();
    reg.register(MatId::Red, FakeInstance(1));
    match reg.get_mut(MatId::Red) {
        Some(instance) => instance.0 = 7,
        None => panic!("registered"),
    }
    assert_eq!(reg.get(MatId::Red).map(|i| i.0), Some(7));
    assert!(reg.get_mut(MatId::Gold).is_none());
    assert_eq!(reg.len(), 1);
}

#[test]
fn material_attribs_size_matches_layout() {
    assert_eq!(std::mem::size_of::<MeshInstanceAttribs>(), 84);
    assert_eq!(INSTANCE_STRIDE, 84);
}

#[test]
fn pbr_attribs_size_matches_layout() {
    assert_eq!(std::mem::size_of::<PbrInstanceAttribs>(), 84);
}

#[test]
fn attribs_new_round_trips() {
    let m = Mat4::from_translation(Vec3::new(1.0, 2.0, 3.0));
    let attribs = MeshInstanceAttribs::new(bits16(m), bits4(Vec4::new(0.5, 0.6, 0.7, 1.0)));
    let model = attribs.model.map(f32::from_bits);
    assert_eq!(model[12..16], [1.0, 2.0, 3.0, 1.0]);
    assert_eq!(attribs.tint.map(f32::from_bits), [0.5, 0.6, 0.7, 1.0]);
    assert_eq!(attribs.hit_id, 0);
}

#[test]
fn material_with_hit_id_round_trips() {
    let attribs =
        MeshInstanceAttribs::new(bits16(Mat4::IDENTITY), bits4(Vec4::ONE)).with_hit_id(42);
    assert_eq!(attribs.hit_id, 42);
}

#[test]
fn pbr_with_hit_id_round_trips() {
    let attribs = PbrInstanceAttribs::new(bits16(Mat4::IDENTITY), bits4(Vec4::ONE)).with_hit_id(7);
    assert_eq!(attribs.hit_id, 7);
    assert_eq!(
        PbrInstanceAttribs::new(bits16(Mat4::IDENTITY), bits4(Vec4::ONE)).hit_id,
        0
    );
}

#[test]
fn vertex_attributes_match_pod_layout() {
    let attrs = MeshInstanceAttribs::vertex_attributes(1);
    let offsets: Vec<u64> = attrs.iter().map(|a| a.offset).collect();
    assert_eq!(offsets, vec![0, 16, 32, 48, 64, 80]);
    let locations: Vec<u32> = attrs.iter().map(|a| a.shader_location).collect();
    assert_eq!(locations, vec![1, 2, 3, 4, 5, 6]);
    assert_eq!(attrs[5].format, VertexFormat::Uint32);
}

#[test]
fn material_uniform_is_std140_safe() {
    let words = pbr_uniform(bits4(Vec4::ONE), 0.5f32.to_bits(), 0.25f32.to_bits());
    assert_eq!(std::mem::size_of_val(&words), 32);
    assert_eq!(words[4], 0.5f32.to_bits());
    assert_eq!(words[5], 0.25f32.to_bits());
    assert_eq!(words[6..], [0, 0]);
}

#[test]
fn names_are_lowered_only_without_a_namespace() {
    let mut reg = MaterialRegistry::new();
    reg.register(MaterialId::new("gltf:lumber").unwrap(), 1u32);
    assert_eq!(reg.get_by_name("LuMbEr"), Some(&1));
    assert!(reg.get_by_name("GLTF:lumber").is_none());
    assert!(reg.get_by_name("gltf:Lumber").is_none());
    assert_eq!(reg.get_by_slot("Lumber", "lumber"), Some(&1));
    assert!(reg.get_by_slot("Lumber", "Lumber").is_none());
}

#[test]
fn material_registries_list_their_entries() {
    let mut reg = MaterialRegistry::default();
    reg.register(MaterialId::new("a:x").unwrap(), 1u32);
    reg.register(MaterialId::new("a:y").unwrap(), 2u32);
    match reg.get_mut(&MaterialId::new("a:x").unwrap()) {
        Some(v) => *v = 9,
        None => panic!("registered"),
    }
    let mut all: Vec<(String, u32)> = reg
        .iter()
        .into_iter()
        .map(|(id, v)| (id.as_str().to_owned(), *v))
        .collect();
    all.sort();
    assert_eq!(all, vec![("a:x".to_owned(), 9), ("a:y".to_owned(), 2)]);
}

#[test]
fn material_id_errors_have_words() {
    assert_eq!(
        MaterialIdError::EmptyName.message(),
        "material id name is empty"
    );
    assert_eq!(
        MaterialIdError::MultipleSeparators.message(),
        "material id has more than one `:`"
    );
}

#[test]
fn every_instance_can_be_changed() {
    let mut reg = MaterialRegistry::new();
    reg.register(MaterialId::new("a:x").unwrap(), 1u32);
    reg.register(MaterialId::new("a:y").unwrap(), 2u32);
    reg.iter_mut(|id: &MaterialId, v: &u32| if id.name() == "y" { v + 10 } else { *v });
    assert_eq!(reg.get_by_name("a:x"), Some(&1));
    assert_eq!(reg.get_by_name("a:y"), Some(&12));
    assert_eq!(reg.len(), 2);
}

#[test]
fn material_registry_counts_and_lists_each_id_once() {
    let bark = MaterialId::new("currawong:bark").unwrap();
    let leaf = MaterialId::new("currawong:leaf").unwrap();
    let mut registry: MaterialRegistry<u32> = MaterialRegistry::new();
    registry.register(bark.clone(), 1);
    registry.register(leaf.clone(), 2);
    registry.register(bark.clone(), 3);
    assert_eq!(registry.len(), 2);
    let listed: Vec<(String, u32)> = registry
        .iter()
        .into_iter()
        .map(|(id, instance)| (id.as_str().to_owned(), *instance))
        .collect();
    assert_eq!(
        listed,
        vec![("currawong:bark".to_owned(), 3), ("currawong:leaf".to_owned(), 2)]
    );
    assert_eq!(registry.get(&leaf), Some(&2));
}
