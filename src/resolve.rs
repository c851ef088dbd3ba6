//! Name resolution: visibility along module ancestry, and following `use`
//! imports to the item they name. Paths are sequences of interned segment
//! ids.
use vstd::prelude::*;

verus! {

/// How far an item or module is visible.
#[derive(Clone, Copy, Debug, PartialEq, Eq, Structural)]
pub enum Visibility {
    /// Visible in its own module only.
    Inherited,
    /// `pub(self)`: visible in its own module only.
    SelfValue,
    /// `pub(super)`: visible in its module's parent too.
    Super,
    /// `pub(crate)`.
    Crate,
    /// `pub`.
    Public,
}

/// A resolution failure.
#[derive(Clone, Copy, Debug, PartialEq, Eq, Structural)]
pub enum ResolveError {
    /// An import chain came back to an item it had passed.
    ImportCycle,
    /// An import chain went on longer than the limit.
    ImportRecursionLimit { count: usize },
    /// The module made of the first `len` segments of the target's module
    /// is not registered.
    MissingMod { len: usize },
    /// The module made of the first `len` segments of the target's module
    /// is not visible from the use site.
    NotVisibleMod { len: usize },
    /// The item itself is not visible from the use site.
    NotVisible,
}

/// A registered module.
pub struct ModuleInfo {
    pub path: Vec<u32>,
    pub visibility: Visibility,
}

/// A registered `use`: the item `item` stands for `target`, declared in
/// module `module` with `visibility`.
pub struct ImportEntry {
    pub item: Vec<u32>,
    pub target: Vec<u32>,
    pub module: usize,
    pub visibility: Visibility,
}

/// A name the host provides everywhere, and the item it stands for.
pub struct PreludeEntry {
    pub name: u32,
    pub item: Vec<u32>,
}

/// The modules, items, imports and prelude of a unit.
pub struct Resolver {
    pub modules: Vec<ModuleInfo>,
    pub imports: Vec<ImportEntry>,
    pub items: Vec<Vec<u32>>,
    pub prelude: Vec<PreludeEntry>,
}

/// The most imports one resolution follows.
pub const IMPORT_RECURSION_LIMIT: usize = 128;

/// The length of the common prefix of `a` and `b`, from `i` on.
pub open spec fn common_len_from(a: Seq<u32>, b: Seq<u32>, i: int) -> int
    decreases a.len() - i,
{
    if 0 <= i < a.len() && i < b.len() && a[i] == b[i] {
        common_len_from(a, b, i + 1)
    } else {
        i
    }
}

/// Whether `to` lies in `from` or at most `n` levels below it.
pub open spec fn is_super_of(from: Seq<u32>, to: Seq<u32>, n: nat) -> bool {
    from.len() <= to.len() <= from.len() + n && to.subrange(0, from.len() as int) == from
}

/// Whether a module of visibility `v` at `to` can be entered from `from`.
pub open spec fn visible(v: Visibility, from: Seq<u32>, to: Seq<u32>) -> bool {
    match v {
        Visibility::Inherited | Visibility::SelfValue => is_super_of(from, to, 1),
        Visibility::Super => is_super_of(from, to, 2),
        Visibility::Crate | Visibility::Public => true,
    }
}

/// Whether an item of visibility `v` in module `to` is visible from `from`.
pub open spec fn visible_inside(v: Visibility, from: Seq<u32>, to: Seq<u32>) -> bool {
    match v {
        Visibility::Inherited | Visibility::SelfValue => from == to,
        Visibility::Super => is_super_of(from, to, 1),
        Visibility::Crate | Visibility::Public => true,
    }
}

/// The first registered module at `path`.
pub open spec fn find_module_from(modules: Seq<ModuleInfo>, path: Seq<u32>, i: int) -> Option<int>
    decreases modules.len() - i,
{
    if i < 0 || i >= modules.len() {
        None
    } else if modules[i].path@ == path {
        Some(i)
    } else {
        find_module_from(modules, path, i + 1)
    }
}

/// Walks the target module's path below the common ancestry `common`, from
/// prefix length `k` on: each module must exist and be visible.
pub open spec fn walk_spec(modules: Seq<ModuleInfo>, common: Seq<u32>, module: Seq<u32>, k: int) -> Result<(), ResolveError>
    decreases module.len() + 1 - k,
{
    if k < 0 || k > module.len() {
        Ok(())
    } else {
        let current = module.subrange(0, k);
        match find_module_from(modules, current, 0) {
            None => Err(ResolveError::MissingMod { len: k as usize }),
            Some(m) => if !visible(modules[m].visibility, common, current) {
                Err(ResolveError::NotVisibleMod { len: k as usize })
            } else {
                walk_spec(modules, common, module, k + 1)
            },
        }
    }
}

/// Whether an item of visibility `visibility` in `module` may be used from
/// module `from`.
pub open spec fn access_spec(modules: Seq<ModuleInfo>, from: Seq<u32>, module: Seq<u32>, visibility: Visibility) -> Result<(), ResolveError> {
    let c = common_len_from(from, module, 0);
    let common = module.subrange(0, c);
    match walk_spec(modules, common, module, c + 1) {
        Err(e) => Err(e),
        Ok(()) => if visible_inside(visibility, common, module) {
            Ok(())
        } else {
            Err(ResolveError::NotVisible)
        },
    }
}

/// The first import registered for `item`.
pub open spec fn find_import_from(imports: Seq<ImportEntry>, item: Seq<u32>, i: int) -> Option<int>
    decreases imports.len() - i,
{
    if i < 0 || i >= imports.len() {
        None
    } else if imports[i].item@ == item {
        Some(i)
    } else {
        find_import_from(imports, item, i + 1)
    }
}

/// Whether `path` is a registered item or an import's name.
pub open spec fn is_declared(items: Seq<Vec<u32>>, imports: Seq<ImportEntry>, path: Seq<u32>) -> bool {
    views(items).contains(path) || find_import_from(imports, path, 0) is Some
}

/// The first prelude entry for `name`, from index `i` on.
pub open spec fn prelude_from(prelude: Seq<PreludeEntry>, name: u32, i: int) -> Option<Seq<u32>>
    decreases prelude.len() - i,
{
    if i < 0 || i >= prelude.len() {
        None
    } else if prelude[i].name == name {
        Some(prelude[i].item@)
    } else {
        prelude_from(prelude, name, i + 1)
    }
}

impl Resolver {
    /// Looking `name` up from the module at `module`, in its ancestor with
    /// `depth` segments and those above it: the innermost declaration wins;
    /// past the root, the prelude.
    pub open spec fn lookup_spec(&self, module: Seq<u32>, name: u32, depth: int) -> Option<Seq<u32>>
        decreases depth + 1,
    {
        if depth < 0 || depth > module.len() {
            prelude_from(self.prelude@, name, 0)
        } else {
            let candidate = module.subrange(0, depth).push(name);
            if is_declared(self.items@, self.imports@, candidate) {
                Some(candidate)
            } else {
                self.lookup_spec(module, name, depth - 1)
            }
        }
    }

    /// Whether every import names a registered module.
    pub open spec fn wf(&self) -> bool {
        forall|i: int| 0 <= i < self.imports@.len() ==> #[trigger] self.imports@[i].module < self.modules@.len()
    }

    /// One import step from module `module` on `item`: the import registered
    /// for it, after checking that the use site may see it.
    pub open spec fn step_spec(&self, module: int, item: Seq<u32>) -> Result<Option<int>, ResolveError> {
        match find_import_from(self.imports@, item, 0) {
            None => Ok(None),
            Some(i) => match access_spec(
                self.modules@,
                self.modules@[module].path@,
                self.modules@[self.imports@[i].module as int].path@,
                self.imports@[i].visibility,
            ) {
                Err(e) => Err(e),
                Ok(()) => Ok(Some(i)),
            },
        }
    }

    /// The shortest prefix of `item`, of length `k` or more, that an import
    /// stands for, with that import.
    pub open spec fn scan_spec(&self, module: int, item: Seq<u32>, k: int) -> Result<Option<(int, int)>, ResolveError>
        decreases item.len() + 1 - k,
    {
        if k < 1 || k > item.len() {
            Ok(None)
        } else {
            match self.step_spec(module, item.subrange(0, k)) {
                Err(e) => Err(e),
                Ok(Some(i)) => Ok(Some((k, i))),
                Ok(None) => self.scan_spec(module, item, k + 1),
            }
        }
    }

    /// Following imports from `item` in `module`: each step replaces the
    /// shortest imported prefix by its target, in the import's module, until
    /// no prefix is imported. `None` when no import applied at all.
    pub open spec fn import_spec(&self, module: int, item: Seq<u32>, visited: Seq<Seq<u32>>, count: nat, matched: bool) -> Result<Option<Seq<u32>>, ResolveError>
        decreases IMPORT_RECURSION_LIMIT + 1 - count,
    {
        if count > IMPORT_RECURSION_LIMIT {
            Err(ResolveError::ImportRecursionLimit { count: count as usize })
        } else {
            match self.scan_spec(module, item, 1) {
                Err(e) => Err(e),
                Ok(None) => Ok(if matched { Some(item) } else { None }),
                Ok(Some((k, i))) => if visited.contains(item) {
                    Err(ResolveError::ImportCycle)
                } else {
                    self.import_spec(
                        self.imports@[i].module as int,
                        self.imports@[i].target@ + item.subrange(k, item.len() as int),
                        visited.push(item),
                        count + 1,
                        true,
                    )
                },
            }
        }
    }
}

/// A result with its index widened.
pub open spec fn lift_index(r: Result<Option<usize>, ResolveError>) -> Result<Option<int>, ResolveError> {
    match r {
        Ok(Some(i)) => Ok(Some(i as int)),
        Ok(None) => Ok(None),
        Err(e) => Err(e),
    }
}

/// A result with its indices widened.
pub open spec fn lift_pair(r: Result<Option<(usize, usize)>, ResolveError>) -> Result<Option<(int, int)>, ResolveError> {
    match r {
        Ok(Some((k, i))) => Ok(Some((k as int, i as int))),
        Ok(None) => Ok(None),
        Err(e) => Err(e),
    }
}

/// A result with its path viewed as a sequence.
pub open spec fn lift_path(r: Result<Option<Vec<u32>>, ResolveError>) -> Result<Option<Seq<u32>>, ResolveError> {
    match r {
        Ok(Some(v)) => Ok(Some(v@)),
        Ok(None) => Ok(None),
        Err(e) => Err(e),
    }
}

/// The paths of `v`, as sequences.
pub open spec fn views(v: Seq<Vec<u32>>) -> Seq<Seq<u32>> {
    Seq::new(v.len(), |i: int| v[i]@)
}

/// Whether `p` is among `list`.
pub fn contains_path(list: &Vec<Vec<u32>>, p: &Vec<u32>) -> (r: bool)
    ensures
        r == views(list@).contains(p@),
{
    let mut i: usize = 0;
    while i < list.len()
        invariant
            i <= list@.len(),
            forall|j: int| 0 <= j < i ==> list@[j]@ != p@,
        decreases list.len() - i,
    {
        if same_path(&list[i], p) {
            proof {
                assert(views(list@)[i as int] == p@);
            }
            return true;
        }
        i += 1;
    }
    proof {
        if views(list@).contains(p@) {
            let j = choose|j: int| 0 <= j < views(list@).len() && views(list@)[j] == p@;
            assert(list@[j]@ == p@);
        }
    }
    false
}

/// Whether `a` and `b` hold the same segments.
pub fn same_path(a: &Vec<u32>, b: &Vec<u32>) -> (r: bool)
    ensures
        r == (a@ == b@),
{
    if a.len() != b.len() {
        return false;
    }
    let mut i: usize = 0;
    while i < a.len()
        invariant
            a@.len() == b@.len(),
            i <= a@.len(),
            forall|j: int| 0 <= j < i ==> a@[j] == b@[j],
        decreases a.len() - i,
    {
        if a[i] != b[i] {
            return false;
        }
        i += 1;
    }
    proof {
        assert(a@ =~= b@);
    }
    true
}

/// The first `k` segments of `a`.
pub fn prefix(a: &Vec<u32>, k: usize) -> (r: Vec<u32>)
    requires
        k <= a@.len(),
    ensures
        r@ == a@.subrange(0, k as int),
{
    let mut out: Vec<u32> = Vec::new();
    let mut i: usize = 0;
    while i < k
        invariant
            k <= a@.len(),
            i <= k,
            out@ == a@.subrange(0, i as int),
        decreases k - i,
    {
        out.push(a[i]);
        proof {
            assert(a@.subrange(0, i + 1) =~= a@.subrange(0, i as int).push(a@[i as int]));
        }
        i += 1;
    }
    out
}

/// `head` followed by `tail` from index `k` on.
pub fn join(head: &Vec<u32>, tail: &Vec<u32>, k: usize) -> (r: Vec<u32>)
    requires
        k <= tail@.len(),
    ensures
        r@ == head@ + tail@.subrange(k as int, tail@.len() as int),
{
    let mut out = prefix(head, head.len());
    proof {
        assert(head@.subrange(0, head@.len() as int) =~= head@);
    }
    let mut i: usize = k;
    while i < tail.len()
        invariant
            k <= i <= tail@.len(),
            out@ == head@ + tail@.subrange(k as int, i as int),
        decreases tail.len() - i,
    {
        out.push(tail[i]);
        proof {
            assert(tail@.subrange(k as int, i + 1) =~= tail@.subrange(k as int, i as int).push(tail@[i as int]));
        }
        i += 1;
    }
    out
}

/// The length of the common prefix of `a` and `b`.
pub fn common_len(a: &Vec<u32>, b: &Vec<u32>) -> (r: usize)
    ensures
        r == common_len_from(a@, b@, 0),
        r <= a@.len(),
        r <= b@.len(),
{
    let mut i: usize = 0;
    while i < a.len() && i < b.len() && a[i] == b[i]
        invariant
            i <= a@.len(),
            i <= b@.len(),
            common_len_from(a@, b@, 0) == common_len_from(a@, b@, i as int),
        decreases a.len() - i,
    {
        i += 1;
    }
    i
}

/// Whether `to` lies in `from` or at most `n` levels below it.
pub fn is_super_of_exec(from: &Vec<u32>, to: &Vec<u32>, n: usize) -> (r: bool)
    ensures
        r == is_super_of(from@, to@, n as nat),
{
    if from.len() > to.len() || to.len() - from.len() > n {
        return false;
    }
    let p = prefix(to, from.len());
    same_path(&p, from)
}

/// Whether a module of visibility `v` at `to` can be entered from `from`.
pub fn is_visible(v: Visibility, from: &Vec<u32>, to: &Vec<u32>) -> (r: bool)
    ensures
        r == visible(v, from@, to@),
{
    match v {
        Visibility::Inherited | Visibility::SelfValue => is_super_of_exec(from, to, 1),
        Visibility::Super => is_super_of_exec(from, to, 2),
        Visibility::Crate | Visibility::Public => true,
    }
}

/// Whether an item of visibility `v` in module `to` is visible from `from`.
pub fn is_visible_inside(v: Visibility, from: &Vec<u32>, to: &Vec<u32>) -> (r: bool)
    ensures
        r == visible_inside(v, from@, to@),
{
    match v {
        Visibility::Inherited | Visibility::SelfValue => same_path(from, to),
        Visibility::Super => is_super_of_exec(from, to, 1),
        Visibility::Crate | Visibility::Public => true,
    }
}

impl Resolver {
    /// The index of the module registered at `path`.
    pub fn module_by_path(&self, path: &Vec<u32>) -> (r: Option<usize>)
        ensures
            r matches Some(i) ==> Some(i as int) == find_module_from(self.modules@, path@, 0) && i < self.modules@.len(),
            r is None ==> find_module_from(self.modules@, path@, 0) is None,
    {
        let mut i: usize = 0;
        while i < self.modules.len()
            invariant
                i <= self.modules@.len(),
                find_module_from(self.modules@, path@, 0) == find_module_from(self.modules@, path@, i as int),
            decreases self.modules.len() - i,
        {
            if same_path(&self.modules[i].path, path) {
                return Some(i);
            }
            i += 1;
        }
        None
    }

    /// The index of the import registered for `item`.
    pub fn import_for(&self, item: &Vec<u32>) -> (r: Option<usize>)
        ensures
            r matches Some(i) ==> Some(i as int) == find_import_from(self.imports@, item@, 0) && i < self.imports@.len(),
            r is None ==> find_import_from(self.imports@, item@, 0) is None,
    {
        let mut i: usize = 0;
        while i < self.imports.len()
            invariant
                i <= self.imports@.len(),
                find_import_from(self.imports@, item@, 0) == find_import_from(self.imports@, item@, i as int),
            decreases self.imports.len() - i,
        {
            if same_path(&self.imports[i].item, item) {
                return Some(i);
            }
            i += 1;
        }
        None
    }

    /// Checks that an item of visibility `visibility` in module `module`
    /// may be used from module `from`: every module below their common
    /// ancestry on the way to `module` exists and is visible, and so is the
    /// item.
    pub fn check_access_to(&self, from: &Vec<u32>, module: &Vec<u32>, visibility: Visibility) -> (r: Result<(), ResolveError>)
        ensures
            r == access_spec(self.modules@, from@, module@, visibility),
    {
        let c = common_len(from, module);
        let common = prefix(module, c);
        let mut j: usize = c;
        while j < module.len()
            invariant
                c == common_len_from(from@, module@, 0),
                c <= module@.len(),
                common@ == module@.subrange(0, c as int),
                c <= j <= module@.len(),
                walk_spec(self.modules@, common@, module@, c + 1) == walk_spec(self.modules@, common@, module@, j + 1),
            decreases module.len() - j,
        {
            let k = j + 1;
            let current = prefix(module, k);
            match self.module_by_path(&current) {
                None => {
                    return Err(ResolveError::MissingMod { len: k });
                },
                Some(m) => {
                    if !is_visible(self.modules[m].visibility, &common, &current) {
                        return Err(ResolveError::NotVisibleMod { len: k });
                    }
                },
            }
            j += 1;
        }
        if is_visible_inside(visibility, &common, module) {
            Ok(())
        } else {
            Err(ResolveError::NotVisible)
        }
    }

    /// One import step from module `module` on `item`.
    pub fn import_step(&self, module: usize, item: &Vec<u32>) -> (r: Result<Option<usize>, ResolveError>)
        requires
            self.wf(),
            module < self.modules@.len(),
        ensures
            lift_index(r) == self.step_spec(module as int, item@),
            r matches Ok(Some(i)) ==> i < self.imports@.len(),
    {
        match self.import_for(item) {
            None => Ok(None),
            Some(i) => {
                let target_module = self.imports[i].module;
                match self.check_access_to(
                    &self.modules[module].path,
                    &self.modules[target_module].path,
                    self.imports[i].visibility,
                ) {
                    Err(e) => Err(e),
                    Ok(()) => Ok(Some(i)),
                }
            },
        }
    }

    /// The shortest prefix of `item` that an import stands for, as its
    /// length and the import.
    pub fn scan_prefixes(&self, module: usize, item: &Vec<u32>) -> (r: Result<Option<(usize, usize)>, ResolveError>)
        requires
            self.wf(),
            module < self.modules@.len(),
        ensures
            lift_pair(r) == self.scan_spec(module as int, item@, 1),
            r matches Ok(Some((k, i))) ==> 1 <= k <= item@.len() && i < self.imports@.len(),
    {
        let mut j: usize = 0;
        while j < item.len()
            invariant
                self.wf(),
                module < self.modules@.len(),
                j <= item@.len(),
                self.scan_spec(module as int, item@, 1) == self.scan_spec(module as int, item@, j + 1),
            decreases item.len() - j,
        {
            let k = j + 1;
            let p = prefix(item, k);
            match self.import_step(module, &p) {
                Err(e) => {
                    return Err(e);
                },
                Ok(Some(i)) => {
                    return Ok(Some((k, i)));
                },
                Ok(None) => {},
            }
            j += 1;
        }
        Ok(None)
    }

    /// Follows imports from `item` in module `module` to the item it names;
    /// `None` when no import applies. Fails on a cycle, past the recursion
    /// limit, or where an import is not visible from where it is used.
    pub fn import(&self, module: usize, item: &Vec<u32>) -> (r: Result<Option<Vec<u32>>, ResolveError>)
        requires
            self.wf(),
            module < self.modules@.len(),
        ensures
            lift_path(r) == self.import_spec(module as int, item@, Seq::empty(), 0, false),
    {
        let ghost total = self.import_spec(module as int, item@, Seq::empty(), 0, false);
        let mut cur_module = module;
        let mut cur_item = prefix(item, item.len());
        proof {
            assert(cur_item@ =~= item@);
        }
        let mut visited: Vec<Vec<u32>> = Vec::new();
        let mut count: usize = 0;
        let mut matched = false;
        proof {
            assert(views(visited@) =~= Seq::<Seq<u32>>::empty());
        }
        loop
            invariant
                self.wf(),
                cur_module < self.modules@.len(),
                count <= IMPORT_RECURSION_LIMIT + 1,
                total == self.import_spec(module as int, item@, Seq::empty(), 0, false),
                total == self.import_spec(cur_module as int, cur_item@, views(visited@), count as nat, matched),
            decreases IMPORT_RECURSION_LIMIT + 1 - count,
        {
            if count > IMPORT_RECURSION_LIMIT {
                return Err(ResolveError::ImportRecursionLimit { count });
            }
            match self.scan_prefixes(cur_module, &cur_item) {
                Err(e) => {
                    return Err(e);
                },
                Ok(None) => {
                    if matched {
                        return Ok(Some(cur_item));
                    } else {
                        return Ok(None);
                    }
                },
                Ok(Some((k, i))) => {
                    if contains_path(&visited, &cur_item) {
                        return Err(ResolveError::ImportCycle);
                    }
                    let ghost before = visited@;
                    let copy = prefix(&cur_item, cur_item.len());
                    proof {
                        assert(copy@ =~= cur_item@);
                    }
                    visited.push(copy);
                    proof {
                        assert(views(visited@) =~= views(before).push(cur_item@));
                    }
                    let next = join(&self.imports[i].target, &cur_item, k);
                    cur_module = self.imports[i].module;
                    cur_item = next;
                    count = count + 1;
                    matched = true;
                },
            }
        }
    }

    /// Whether `path` is a registered item or an import's name.
    pub fn declared(&self, path: &Vec<u32>) -> (r: bool)
        ensures
            r == is_declared(self.items@, self.imports@, path@),
    {
        if contains_path(&self.items, path) {
            return true;
        }
        match self.import_for(path) {
            Some(_) => true,
            None => false,
        }
    }

    /// The prelude's item for `name`.
    pub fn prelude_item(&self, name: u32) -> (r: Option<Vec<u32>>)
        ensures
            match prelude_from(self.prelude@, name, 0) {
                Some(p) => r matches Some(v) && v@ == p,
                None => r is None,
            },
    {
        let mut i: usize = 0;
        while i < self.prelude.len()
            invariant
                i <= self.prelude@.len(),
                prelude_from(self.prelude@, name, 0) == prelude_from(self.prelude@, name, i as int),
            decreases self.prelude.len() - i,
        {
            if self.prelude[i].name == name {
                let item = &self.prelude[i].item;
                let r = prefix(item, item.len());
                proof {
                    assert(r@ =~= item@);
                }
                return Some(r);
            }
            i += 1;
        }
        None
    }

    /// Looks `name` up from the module at `module`, walking outward to the
    /// root, then in the prelude.
    pub fn lookup(&self, module: &Vec<u32>, name: u32) -> (r: Option<Vec<u32>>)
        ensures
            match self.lookup_spec(module@, name, module@.len() as int) {
                Some(p) => r matches Some(v) && v@ == p,
                None => r is None,
            },
    {
        let mut depth: usize = module.len();
        loop
            invariant
                depth <= module@.len(),
                self.lookup_spec(module@, name, module@.len() as int) == self.lookup_spec(module@, name, depth as int),
            decreases depth,
        {
            let mut candidate = prefix(module, depth);
            candidate.push(name);
            if self.declared(&candidate) {
                return Some(candidate);
            }
            if depth == 0 {
                proof {
                    assert(self.lookup_spec(module@, name, -1) == prelude_from(self.prelude@, name, 0));
                }
                return self.prelude_item(name);
            }
            depth = depth - 1;
        }
    }

    /// Resolves `name` used in module `module`: looks it up, then follows
    /// imports from what was found.
    pub fn resolve(&self, module: usize, name: u32) -> (r: Result<Option<Vec<u32>>, ResolveError>)
        requires
            self.wf(),
            module < self.modules@.len(),
        ensures
            match self.lookup_spec(self.modules@[module as int].path@, name, self.modules@[module as int].path@.len() as int) {
                None => r == Ok::<Option<Vec<u32>>, ResolveError>(None),
                Some(p) => match self.import_spec(module as int, p, Seq::empty(), 0, false) {
                    Ok(Some(q)) => r matches Ok(Some(v)) && v@ == q,
                    Ok(None) => r matches Ok(Some(v)) && v@ == p,
                    Err(e) => r == Err::<Option<Vec<u32>>, ResolveError>(e),
                },
            },
    {
        match self.lookup(&self.modules[module].path, name) {
            None => Ok(None),
            Some(found) => match self.import(module, &found) {
                Ok(Some(target)) => Ok(Some(target)),
                Ok(None) => Ok(Some(found)),
                Err(e) => Err(e),
            },
        }
    }
}


/// One segment of a path as written.
#[derive(Clone, Copy, Debug, PartialEq, Eq, Structural)]
pub enum PathSegment {
    /// A name.
    Ident(u32),
    /// `super`.
    Super,
    /// `Self`, the type of the enclosing impl block.
    SelfType,
    /// `self`, the current module.
    SelfValue,
    /// `crate`.
    Crate,
    /// Generic arguments, by id.
    Generics(u32),
}

/// Why a path cannot be converted.
#[derive(Clone, Copy, Debug, PartialEq, Eq, Structural)]
pub enum PathError {
    /// `::` before something other than a name.
    UnsupportedGlobal,
    /// `super` above the root.
    UnsupportedSuper,
    /// `Self` outside an impl block, or where it is denied.
    UnsupportedSelfType,
    /// `super` after `Self`.
    UnsupportedSuperInSelfType,
    /// Generic arguments where none can go.
    UnsupportedGenerics,
    /// Something other than a name after generic arguments.
    UnsupportedAfterGeneric,
    /// `self`, `Self` or `crate` after the first segment.
    ExpectedLeadingPathSegment,
}

/// The item that the first segment names, and whether it is `Self`.
pub open spec fn convert_first_spec(global: bool, first: PathSegment, module: Seq<u32>, impl_item: Option<Seq<u32>>, deny_self_type: bool) -> Result<(Seq<u32>, bool), PathError> {
    if global {
        match first {
            PathSegment::Ident(x) => Ok((seq![x], false)),
            _ => Err(PathError::UnsupportedGlobal),
        }
    } else {
        match first {
            PathSegment::Ident(x) => Ok((module.push(x), false)),
            PathSegment::Super => if module.len() == 0 {
                Err(PathError::UnsupportedSuper)
            } else {
                Ok((module.drop_last(), false))
            },
            PathSegment::SelfType => match impl_item {
                Some(item) => if deny_self_type {
                    Err(PathError::UnsupportedSelfType)
                } else {
                    Ok((item, true))
                },
                Option::None => Err(PathError::UnsupportedSelfType),
            },
            PathSegment::SelfValue => Ok((module, false)),
            PathSegment::Crate => Ok((Seq::empty(), false)),
            PathSegment::Generics(_) => Err(PathError::UnsupportedGenerics),
        }
    }
}

/// The number of generic argument slots a path has.
pub const GENERIC_SLOTS: usize = 2;

/// The rest of a path from index `i` on, applied to `item`: names are
/// appended and `super` goes up until generic arguments appear; after them
/// only names follow, each taking a slot, optionally with its own
/// arguments.
pub open spec fn convert_rest_spec(rest: Seq<PathSegment>, i: int, item: Seq<u32>, in_self_type: bool, after_generics: bool, slots: nat, params: Seq<u32>) -> Result<(Seq<u32>, Seq<u32>), PathError>
    decreases rest.len() - i,
{
    if i < 0 || i >= rest.len() {
        Ok((item, params))
    } else if !after_generics {
        match rest[i] {
            PathSegment::Ident(x) => convert_rest_spec(rest, i + 1, item.push(x), in_self_type, false, slots, params),
            PathSegment::Super => if in_self_type {
                Err(PathError::UnsupportedSuperInSelfType)
            } else if item.len() == 0 {
                Err(PathError::UnsupportedSuper)
            } else {
                convert_rest_spec(rest, i + 1, item.drop_last(), in_self_type, false, slots, params)
            },
            PathSegment::Generics(g) => convert_rest_spec(rest, i + 1, item, in_self_type, true, 1, params.push(g)),
            _ => Err(PathError::ExpectedLeadingPathSegment),
        }
    } else {
        match rest[i] {
            PathSegment::Ident(x) => if slots >= GENERIC_SLOTS {
                Err(PathError::UnsupportedGenerics)
            } else if i + 1 < rest.len() && rest[i + 1] is Generics {
                convert_rest_spec(rest, i + 2, item.push(x), in_self_type, true, slots + 1, params.push(rest[i + 1]->Generics_0))
            } else {
                convert_rest_spec(rest, i + 1, item.push(x), in_self_type, true, slots + 1, params)
            },
            _ => Err(PathError::UnsupportedAfterGeneric),
        }
    }
}

/// A path as written, used in module `module` (inside the impl block of
/// `impl_item`, if any), converted to the item it names and its generic
/// arguments.
pub open spec fn convert_path_spec(global: bool, first: PathSegment, rest: Seq<PathSegment>, module: Seq<u32>, impl_item: Option<Seq<u32>>, deny_self_type: bool) -> Result<(Seq<u32>, Seq<u32>), PathError> {
    match convert_first_spec(global, first, module, impl_item, deny_self_type) {
        Err(e) => Err(e),
        Ok((item, in_self_type)) => convert_rest_spec(rest, 0, item, in_self_type, false, 0, Seq::empty()),
    }
}

/// An optional path, viewed.
pub open spec fn opt_view(p: Option<&Vec<u32>>) -> Option<Seq<u32>> {
    match p {
        Some(v) => Some(v@),
        Option::None => Option::None,
    }
}

/// A converted path, viewed.
pub open spec fn pair_view(r: Result<(Vec<u32>, Vec<u32>), PathError>) -> Result<(Seq<u32>, Seq<u32>), PathError> {
    match r {
        Ok((a, b)) => Ok((a@, b@)),
        Err(e) => Err(e),
    }
}

/// Converts a path as written into the item it names and its generic
/// arguments, resolving `self`, `super`, `Self`, `crate` and a leading `::`.
pub fn convert_path(global: bool, first: PathSegment, rest: &Vec<PathSegment>, module: &Vec<u32>, impl_item: Option<&Vec<u32>>, deny_self_type: bool) -> (r: Result<(Vec<u32>, Vec<u32>), PathError>)
    ensures
        pair_view(r) == convert_path_spec(global, first, rest@, module@, opt_view(impl_item), deny_self_type),
{
    let mut in_self_type = false;
    let mut item: Vec<u32>;
    if global {
        match first {
            PathSegment::Ident(x) => {
                item = Vec::new();
                item.push(x);
                proof {
                    assert(item@ =~= seq![x]);
                }
            },
            _ => {
                return Err(PathError::UnsupportedGlobal);
            },
        }
    } else {
        match first {
            PathSegment::Ident(x) => {
                item = prefix(module, module.len());
                proof {
                    assert(item@ =~= module@);
                }
                item.push(x);
            },
            PathSegment::Super => {
                if module.len() == 0 {
                    return Err(PathError::UnsupportedSuper);
                }
                item = prefix(module, module.len() - 1);
            },
            PathSegment::SelfType => match impl_item {
                Some(it) => {
                    if deny_self_type {
                        return Err(PathError::UnsupportedSelfType);
                    }
                    item = prefix(it, it.len());
                    proof {
                        assert(item@ =~= it@);
                    }
                    in_self_type = true;
                },
                None => {
                    return Err(PathError::UnsupportedSelfType);
                },
            },
            PathSegment::SelfValue => {
                item = prefix(module, module.len());
                proof {
                    assert(item@ =~= module@);
                }
            },
            PathSegment::Crate => {
                item = Vec::new();
            },
            PathSegment::Generics(_) => {
                return Err(PathError::UnsupportedGenerics);
            },
        }
    }
    let ghost total = convert_path_spec(global, first, rest@, module@, opt_view(impl_item), deny_self_type);
    assert(total == convert_rest_spec(rest@, 0, item@, in_self_type, false, 0, Seq::empty()));
    let mut params: Vec<u32> = Vec::new();
    let mut after_generics = false;
    let mut slots: usize = 0;
    let mut i: usize = 0;
    while i < rest.len()
        invariant
            i <= rest@.len(),
            slots <= GENERIC_SLOTS,
            total == convert_path_spec(global, first, rest@, module@, opt_view(impl_item), deny_self_type),
            total == convert_rest_spec(rest@, i as int, item@, in_self_type, after_generics, slots as nat, params@),
        decreases rest.len() - i,
    {
        let seg = rest[i];
        if !after_generics {
            match seg {
                PathSegment::Ident(x) => {
                    item.push(x);
                    i += 1;
                },
                PathSegment::Super => {
                    if in_self_type {
                        return Err(PathError::UnsupportedSuperInSelfType);
                    }
                    if item.len() == 0 {
                        return Err(PathError::UnsupportedSuper);
                    }
                    let ghost before = item@;
                    let _ = item.pop();
                    proof {
                        assert(item@ =~= before.drop_last());
                    }
                    i += 1;
                },
                PathSegment::Generics(g) => {
                    params.push(g);
                    after_generics = true;
                    slots = 1;
                    i += 1;
                },
                _ => {
                    return Err(PathError::ExpectedLeadingPathSegment);
                },
            }
        } else {
            match seg {
                PathSegment::Ident(x) => {
                    if slots >= GENERIC_SLOTS {
                        return Err(PathError::UnsupportedGenerics);
                    }
                    item.push(x);
                    slots = slots + 1;
                    if i + 1 < rest.len() {
                        match rest[i + 1] {
                            PathSegment::Generics(g) => {
                                params.push(g);
                                i += 2;
                            },
                            _ => {
                                i += 1;
                            },
                        }
                    } else {
                        i += 1;
                    }
                },
                _ => {
                    return Err(PathError::UnsupportedAfterGeneric);
                },
            }
        }
    }
    Ok((item, params))
}

} // verus!
