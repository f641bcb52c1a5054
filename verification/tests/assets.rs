use currawong::data::memory_source::MemorySource;
use currawong::data::path::VfsPath;
use currawong::data::vfs::Vfs;
use currawong::render::asset_server::{
    load_texture, magenta_fallback, AssetServer, TextureColorSpace, TextureKey, TextureSource,
};
use currawong::render::handle::{Handle, HandleError};
use currawong::render::pbr::PbrMaterialInstance;
use currawong::render::pbr_atlas::{
    PbrAtlasMaterialInstance, PbrAtlasMaterialParams, SamplerKind,
};
use std::collections::hash_map::DefaultHasher;
use std::hash::{Hash, Hasher};
use std::sync::Arc;

fn p(s: &str) -> VfsPath {
    VfsPath::new(s).unwrap()
}

fn server() -> AssetServer<u32, MemorySource> {
    AssetServer::new(Arc::new(Vfs::new()), 0)
}

#[test]
fn texture_key_hashes_consistently() {
    let mut h1 = DefaultHasher::new();
    let mut h2 = DefaultHasher::new();
    let a = TextureKey {
        path: p("foo.png"),
        color_space: TextureColorSpace::Srgb,
    };
    let b = TextureKey {
        path: p("foo.png"),
        color_space: TextureColorSpace::Srgb,
    };
    let c = TextureKey {
        path: p("foo.png"),
        color_space: TextureColorSpace::Linear,
    };
    a.hash(&mut h1);
    b.hash(&mut h2);
    assert_eq!(a, b);
    assert_eq!(h1.finish(), h2.finish());
    assert_ne!(a, c);
}

#[test]
fn load_texture_surfaces_vfs_miss_as_handle_error() {
    let mut vfs = Vfs::new();
    vfs.mount(MemorySource::new());
    let result = load_texture(&vfs, &p("missing.png"), |_: &Vec<u8>| Ok::<u32, String>(1));
    assert!(result.is_err(), "missing path must surface as HandleError");
    let err = result.unwrap_err();
    assert!(
        err.message().contains("missing.png"),
        "error message should name the missing path; got {}",
        err.message()
    );
    assert_eq!(err.message(), "reading missing.png: asset not found");
}

#[test]
fn textures_are_decoded_from_what_is_read() {
    let mut vfs = Vfs::new();
    vfs.mount(MemorySource::new().with("a.png", vec![1, 2, 3]));
    let sum = load_texture(&vfs, &p("a.png"), |bytes: &Vec<u8>| {
        Ok::<u32, String>(bytes.iter().map(|b| *b as u32).sum())
    });
    assert_eq!(sum.unwrap(), 6);
    let broken = load_texture(&vfs, &p("a.png"), |_: &Vec<u8>| {
        Err::<u32, String>("not a PNG".to_owned())
    });
    assert_eq!(broken.unwrap_err().message(), "decoding a.png: not a PNG");
}

#[test]
fn a_texture_is_loaded_once() {
    let mut server = server();
    let (first, writer) = server.texture(p("a.png"), TextureColorSpace::Srgb);
    let (second, again) = server.texture(p("a.png"), TextureColorSpace::Srgb);
    assert!(writer.is_some());
    assert!(again.is_none());
    assert!(Handle::ptr_eq(&first, &second));
    assert_eq!(first.label(), "a.png");
    let (linear, other) = server.texture(p("a.png"), TextureColorSpace::Linear);
    assert!(other.is_some());
    assert!(!Handle::ptr_eq(&first, &linear));
    match writer {
        Some(writer) => assert!(writer.set_ready(7)),
        None => panic!("first request"),
    }
    assert_eq!(*server.resolve_texture(&second).texture, 7);
}

#[test]
fn textures_resolve_by_the_state_of_their_handle() {
    let mut server = server();
    let ready = Handle::ready(5u32);
    let failed = Handle::failed(HandleError::new("no"));
    let (loading, _writer) = server.texture(p("a.png"), TextureColorSpace::Srgb);
    let resolved = server.resolve_texture(&ready);
    assert_eq!((*resolved.texture, resolved.source), (5, TextureSource::Real));
    let resolved = server.resolve_texture(&failed);
    assert_eq!((*resolved.texture, resolved.source), (0, TextureSource::Failed));
    let resolved = server.resolve_texture(&loading);
    assert_eq!((*resolved.texture, resolved.source), (0, TextureSource::Loading));
    server.set_force_loading(true);
    assert!(server.force_loading());
    let resolved = server.resolve_texture(&ready);
    assert_eq!(
        (*resolved.texture, resolved.source),
        (0, TextureSource::ForcedFallback)
    );
    assert_eq!(*server.fallback_texture(), 0);
}

#[test]
fn atlas_instances_are_bound_again_when_a_source_changes() {
    let mut server = server();
    let (albedo, writer) = server.texture(p("a.png"), TextureColorSpace::Srgb);
    let params = PbrAtlasMaterialParams {
        albedo,
        mre: Handle::ready(1),
        sampler: SamplerKind::NearestClamp,
    };
    let mut instance = PbrAtlasMaterialInstance::new(params, &server);
    assert!(!instance.refresh(&server));
    match writer {
        Some(writer) => assert!(writer.set_ready(7)),
        None => panic!("first request"),
    }
    assert!(instance.refresh(&server));
    assert!(!instance.refresh(&server));
    server.set_force_loading(true);
    assert!(instance.refresh(&server));
    assert!(!instance.note_sources(TextureSource::ForcedFallback, TextureSource::ForcedFallback));
    assert!(instance.note_sources(TextureSource::Real, TextureSource::ForcedFallback));
    assert_eq!(instance.sampler_kind(), SamplerKind::NearestClamp);
    assert!(instance.mre_handle().is_ready());
    assert_eq!(instance.albedo_handle().label(), "a.png");
}

#[test]
fn the_fallback_is_magenta() {
    let pixels = magenta_fallback();
    assert_eq!(pixels.len(), 64);
    for pixel in pixels.chunks(4) {
        assert_eq!(pixel, [255, 0, 255, 255]);
    }
}

#[test]
fn a_material_binds_again_when_its_texture_arrives() {
    let mut assets = server();
    let (albedo, writer) = assets.texture(p("bark.png"), TextureColorSpace::Srgb);
    let mut instance =
        PbrMaterialInstance::new(albedo.clone(), SamplerKind::LinearRepeat, &assets);
    assert!(Handle::ptr_eq(instance.albedo_handle(), &albedo));
    assert_eq!(instance.sampler_kind(), SamplerKind::LinearRepeat);
    assert!(!instance.refresh(&assets));
    assert!(writer.unwrap().set_ready(7));
    assert!(instance.refresh(&assets));
    assert!(!instance.refresh(&assets));
    assets.set_force_loading(true);
    assert!(instance.refresh(&assets));
    assert!(!instance.note_source(TextureSource::ForcedFallback));
    assert!(instance.note_source(TextureSource::Real));
}
