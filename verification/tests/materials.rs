use raytracer::materials::TextureManager;

#[test]
fn new_manager_is_empty() {
    let m: TextureManager<String> = TextureManager::new();
    assert_eq!(m.len(), 0);
}

#[test]
fn load_returns_consecutive_indices() {
    let mut m = TextureManager::new();
    assert_eq!(m.load_texture("wood"), 0);
    assert_eq!(m.load_texture("leaves"), 1);
    assert_eq!(m.load_texture("grass"), 2);
    assert_eq!(m.len(), 3);
}

#[test]
fn get_returns_loaded_texture() {
    let mut m = TextureManager::new();
    let wood = m.load_texture(vec![1u8, 2, 3]);
    let stone = m.load_texture(vec![9u8]);
    assert_eq!(**m.get_texture(wood), vec![1u8, 2, 3]);
    assert_eq!(**m.get_texture(stone), vec![9u8]);
}
