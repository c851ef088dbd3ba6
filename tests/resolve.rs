use rune::resolve::{convert_path, ImportEntry, ModuleInfo, PathError, PathSegment, PreludeEntry, ResolveError, Resolver, Visibility};

fn module(path: &[u32], visibility: Visibility) -> ModuleInfo {
    ModuleInfo { path: path.to_vec(), visibility }
}

fn import(item: &[u32], target: &[u32], module: usize, visibility: Visibility) -> ImportEntry {
    ImportEntry { item: item.to_vec(), target: target.to_vec(), module, visibility }
}

fn resolver(imports: Vec<ImportEntry>) -> Resolver {
    Resolver {
        modules: vec![
            module(&[], Visibility::Public),
            module(&[1], Visibility::Public),
            module(&[1, 2], Visibility::Inherited),
            module(&[3, 3], Visibility::Public),
        ],
        imports,
        items: vec![vec![1, 3], vec![1, 2, 4]],
        prelude: vec![PreludeEntry { name: 5, item: vec![9, 9] }],
    }
}

#[test]
fn lookup_walks_outward_then_to_the_prelude() {
    let r = resolver(vec![]);
    assert_eq!(r.lookup(&vec![1], 3), Some(vec![1, 3]));
    assert_eq!(r.lookup(&vec![1, 2], 3), Some(vec![1, 3]));
    assert_eq!(r.lookup(&vec![1, 2], 4), Some(vec![1, 2, 4]));
    assert_eq!(r.lookup(&vec![], 4), None);
    assert_eq!(r.lookup(&vec![1, 2], 5), Some(vec![9, 9]));
    assert_eq!(r.lookup(&vec![1], 42), None);
}

#[test]
fn resolve_follows_a_public_import() {
    let r = resolver(vec![import(&[6], &[1, 3], 0, Visibility::Public)]);
    assert_eq!(r.resolve(2, 6), Ok(Some(vec![1, 3])));
    assert_eq!(r.resolve(2, 3), Ok(Some(vec![1, 3])));
    assert_eq!(r.import(0, &vec![6, 7]), Ok(Some(vec![1, 3, 7])));
    assert_eq!(r.import(0, &vec![1, 3]), Ok(None));
}

#[test]
fn import_cycles_are_rejected() {
    let r = resolver(vec![
        import(&[7], &[8], 0, Visibility::Public),
        import(&[8], &[7], 0, Visibility::Public),
    ]);
    assert_eq!(r.import(0, &vec![7]), Err(ResolveError::ImportCycle));
}

#[test]
fn visibility_is_checked_along_the_ancestry() {
    let r = resolver(vec![import(&[1, 2, 10], &[1, 3], 2, Visibility::Public)]);
    assert_eq!(r.import(0, &vec![1, 2, 10]), Err(ResolveError::NotVisibleMod { len: 2 }));
    assert_eq!(r.import(1, &vec![1, 2, 10]), Ok(Some(vec![1, 3])));

    let r = resolver(vec![import(&[1, 11], &[1, 3], 1, Visibility::Inherited)]);
    assert_eq!(r.import(0, &vec![1, 11]), Err(ResolveError::NotVisible));
    assert_eq!(r.import(1, &vec![1, 11]), Ok(Some(vec![1, 3])));

    let r = resolver(vec![import(&[3, 3, 1], &[1, 3], 3, Visibility::Public)]);
    assert_eq!(r.import(0, &vec![3, 3, 1]), Err(ResolveError::MissingMod { len: 1 }));
    assert_eq!(r.check_access_to(&vec![], &vec![1], Visibility::Crate), Ok(()));
}

#[test]
fn long_import_chains_hit_the_limit() {
    let imports = (100..230).map(|i| import(&[i], &[i + 1], 0, Visibility::Public)).collect();
    let r = resolver(imports);
    assert_eq!(r.import(0, &vec![100]), Err(ResolveError::ImportRecursionLimit { count: 129 }));
    assert_eq!(r.import(0, &vec![200]), Ok(Some(vec![230])));
}

#[test]
fn convert_path_handles_special_segments() {
    let module = vec![1, 2];
    let imp = vec![7, 8];
    assert_eq!(convert_path(false, PathSegment::Ident(5), &vec![PathSegment::Ident(6)], &module, None, false), Ok((vec![1, 2, 5, 6], vec![])));
    assert_eq!(convert_path(true, PathSegment::Ident(5), &vec![], &module, None, false), Ok((vec![5], vec![])));
    assert_eq!(convert_path(true, PathSegment::Super, &vec![], &module, None, false), Err(PathError::UnsupportedGlobal));
    assert_eq!(convert_path(false, PathSegment::Super, &vec![PathSegment::Ident(9)], &module, None, false), Ok((vec![1, 9], vec![])));
    assert_eq!(convert_path(false, PathSegment::Super, &vec![], &vec![], None, false), Err(PathError::UnsupportedSuper));
    assert_eq!(convert_path(false, PathSegment::SelfValue, &vec![PathSegment::Super, PathSegment::Super], &module, None, false), Ok((vec![], vec![])));
    assert_eq!(convert_path(false, PathSegment::SelfValue, &vec![PathSegment::Super, PathSegment::Super, PathSegment::Super], &module, None, false), Err(PathError::UnsupportedSuper));
    assert_eq!(convert_path(false, PathSegment::Crate, &vec![PathSegment::Ident(3)], &module, None, false), Ok((vec![3], vec![])));
    assert_eq!(convert_path(false, PathSegment::SelfType, &vec![PathSegment::Ident(4)], &module, Some(&imp), false), Ok((vec![7, 8, 4], vec![])));
    assert_eq!(convert_path(false, PathSegment::SelfType, &vec![], &module, Some(&imp), true), Err(PathError::UnsupportedSelfType));
    assert_eq!(convert_path(false, PathSegment::SelfType, &vec![], &module, None, false), Err(PathError::UnsupportedSelfType));
    assert_eq!(convert_path(false, PathSegment::SelfType, &vec![PathSegment::Super], &module, Some(&imp), false), Err(PathError::UnsupportedSuperInSelfType));
    assert_eq!(convert_path(false, PathSegment::Generics(1), &vec![], &module, None, false), Err(PathError::UnsupportedGenerics));
    assert_eq!(convert_path(false, PathSegment::Crate, &vec![PathSegment::SelfValue], &module, None, false), Err(PathError::ExpectedLeadingPathSegment));
    assert_eq!(
        convert_path(false, PathSegment::Crate, &vec![PathSegment::Ident(3), PathSegment::Generics(11), PathSegment::Ident(4), PathSegment::Generics(12)], &module, None, false),
        Ok((vec![3, 4], vec![11, 12]))
    );
    assert_eq!(
        convert_path(false, PathSegment::Crate, &vec![PathSegment::Ident(3), PathSegment::Generics(11), PathSegment::Super], &module, None, false),
        Err(PathError::UnsupportedAfterGeneric)
    );
    assert_eq!(
        convert_path(false, PathSegment::Crate, &vec![PathSegment::Ident(3), PathSegment::Generics(11), PathSegment::Ident(4), PathSegment::Ident(5)], &module, None, false),
        Err(PathError::UnsupportedGenerics)
    );
}
