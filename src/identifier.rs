use vstd::prelude::*;

verus! {

/// A reference to a content item on one of the catalog platforms.
#[derive(Debug, Clone)]
pub enum ModIdentifier {
    /// Latest compatible file of a CurseForge project.
    CurseForgeProject(i32),
    /// Latest compatible version of a Modrinth project.
    ModrinthProject(String),
    /// An exact version (project id, version id) of a Modrinth project.
    PinnedModrinthProject(String, String),
    /// Latest release of a GitHub repository (owner, name).
    GitHubRepository(String, String),
}

/// The two references are written the same way.
pub open spec fn same_ref(a: ModIdentifier, b: ModIdentifier) -> bool {
    match (a, b) {
        (ModIdentifier::CurseForgeProject(x), ModIdentifier::CurseForgeProject(y)) => x == y,
        (ModIdentifier::ModrinthProject(x), ModIdentifier::ModrinthProject(y)) => x@ == y@,
        (
            ModIdentifier::PinnedModrinthProject(x, v),
            ModIdentifier::PinnedModrinthProject(y, w),
        ) => x@ == y@ && v@ == w@,
        (ModIdentifier::GitHubRepository(o, n), ModIdentifier::GitHubRepository(p, m)) => o@
            == p@ && n@ == m@,
        _ => false,
    }
}

/// The Modrinth project that a reference names, pinned or not.
pub open spec fn modrinth_project(a: ModIdentifier) -> Option<Seq<char>> {
    match a {
        ModIdentifier::ModrinthProject(p) => Some(p@),
        ModIdentifier::PinnedModrinthProject(p, _) => Some(p@),
        _ => None,
    }
}

/// The two references name the same underlying item: they are written the
/// same way, or both name one Modrinth project whatever their pin state.
pub open spec fn same_item(a: ModIdentifier, b: ModIdentifier) -> bool {
    same_ref(a, b) || (modrinth_project(a).is_some() && modrinth_project(a) == modrinth_project(b))
}

/// Naming the same item is an equivalence, and references written the same
/// way name the same item.
pub proof fn lemma_same_item_equivalence()
    ensures
        forall|a: ModIdentifier| #[trigger] same_item(a, a),
        forall|a: ModIdentifier, b: ModIdentifier| #[trigger]
            same_ref(a, b) ==> same_item(a, b) && same_ref(b, a),
        forall|a: ModIdentifier, b: ModIdentifier| #[trigger]
            same_item(a, b) ==> same_item(b, a),
        forall|a: ModIdentifier, b: ModIdentifier, c: ModIdentifier|
            #[trigger] same_item(a, b) && #[trigger] same_item(b, c) ==> same_item(a, c),
{
}

/// Decimal digits of a natural number.
pub open spec fn nat_text(n: nat) -> Seq<char>
    decreases n,
{
    let d = (('0' as u8) + (n % 10) as u8) as char;
    if n < 10 {
        seq![d]
    } else {
        nat_text(n / 10).push(d)
    }
}

/// Decimal text of an integer, with a leading `-` when negative.
pub open spec fn int_text(i: int) -> Seq<char> {
    if i < 0 {
        seq!['-'] + nat_text((-i) as nat)
    } else {
        nat_text(i as nat)
    }
}

/// The text that names a referenced item in messages: the project id, the
/// pinned version id, or `owner/name` for a repository.
pub open spec fn id_text(a: ModIdentifier) -> Seq<char> {
    match a {
        ModIdentifier::CurseForgeProject(id) => int_text(id as int),
        ModIdentifier::ModrinthProject(p) => p@,
        ModIdentifier::PinnedModrinthProject(_, v) => v@,
        ModIdentifier::GitHubRepository(o, n) => o@ + seq!['/'] + n@,
    }
}

/// The display name given to an item that was discovered as a dependency.
pub open spec fn dependency_name(a: ModIdentifier) -> Seq<char> {
    seq!['D', 'e', 'p', 'e', 'n', 'd', 'e', 'n', 'c', 'y', ':', ' '] + id_text(a)
}

/// Relies on the `Display` impl of `i32` (via `ToString`): plain decimal
/// digits, with a leading minus sign for negative values.
#[verifier::external_body]
fn i32_text(n: i32) -> (r: String)
    ensures
        r@ == int_text(n as int),
{
    n.to_string()
}

impl ModIdentifier {
    /// A copy of this reference, written the same way.
    pub fn duplicate(&self) -> (r: ModIdentifier)
        ensures
            same_ref(r, *self),
            r == *self,
    {
        match self {
            ModIdentifier::CurseForgeProject(id) => ModIdentifier::CurseForgeProject(*id),
            ModIdentifier::ModrinthProject(p) => ModIdentifier::ModrinthProject(p.clone()),
            ModIdentifier::PinnedModrinthProject(p, v) => ModIdentifier::PinnedModrinthProject(
                p.clone(),
                v.clone(),
            ),
            ModIdentifier::GitHubRepository(o, n) => ModIdentifier::GitHubRepository(
                o.clone(),
                n.clone(),
            ),
        }
    }

    /// Whether `self` and `other` are written the same way.
    pub fn same_ref(&self, other: &ModIdentifier) -> (r: bool)
        ensures
            r == same_ref(*self, *other),
    {
        match (self, other) {
            (ModIdentifier::CurseForgeProject(x), ModIdentifier::CurseForgeProject(y)) => *x == *y,
            (ModIdentifier::ModrinthProject(x), ModIdentifier::ModrinthProject(y)) => *x == *y,
            (
                ModIdentifier::PinnedModrinthProject(x, v),
                ModIdentifier::PinnedModrinthProject(y, w),
            ) => *x == *y && *v == *w,
            (ModIdentifier::GitHubRepository(o, n), ModIdentifier::GitHubRepository(p, m)) => *o
                == *p && *n == *m,
            _ => false,
        }
    }

    /// Whether `self` and `other` name the same underlying item.
    pub fn same_item(&self, other: &ModIdentifier) -> (r: bool)
        ensures
            r == same_item(*self, *other),
    {
        if self.same_ref(other) {
            return true;
        }
        match (self, other) {
            (ModIdentifier::ModrinthProject(x), ModIdentifier::ModrinthProject(y))
            | (ModIdentifier::ModrinthProject(x), ModIdentifier::PinnedModrinthProject(y, _))
            | (ModIdentifier::PinnedModrinthProject(x, _), ModIdentifier::ModrinthProject(y))
            | (
                ModIdentifier::PinnedModrinthProject(x, _),
                ModIdentifier::PinnedModrinthProject(y, _),
            ) => *x == *y,
            _ => false,
        }
    }

    /// The text that names this item in messages.
    pub fn id_text(&self) -> (r: String)
        ensures
            r@ == id_text(*self),
    {
        match self {
            ModIdentifier::CurseForgeProject(id) => i32_text(*id),
            ModIdentifier::ModrinthProject(p) => p.clone(),
            ModIdentifier::PinnedModrinthProject(_, v) => v.clone(),
            ModIdentifier::GitHubRepository(o, n) => {
                let mut r = o.clone();
                r.append("/");
                r.append(n.as_str());
                proof {
                    reveal_strlit("/");
                }
                r
            },
        }
    }

    /// The display name of this item when it was found as a dependency.
    pub fn dependency_name(&self) -> (r: String)
        ensures
            r@ == dependency_name(*self),
    {
        let mut r = String::from_str("Dependency: ");
        let t = self.id_text();
        r.append(t.as_str());
        proof {
            reveal_strlit("Dependency: ");
        }
        r
    }
}

} // verus!
