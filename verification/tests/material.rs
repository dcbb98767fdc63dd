use raytracer::material::MaterialKind;

#[test]
fn material_kinds_are_distinct() {
    assert_eq!(MaterialKind::Diffuse, MaterialKind::Diffuse);
    assert_eq!(MaterialKind::Glossy, MaterialKind::Glossy);
    assert_ne!(MaterialKind::Diffuse, MaterialKind::Glossy);
}

#[test]
fn material_kind_is_copy() {
    let kind = MaterialKind::Glossy;
    let copied = kind;
    assert_eq!(kind, copied);
}
