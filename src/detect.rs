use vstd::prelude::*;
use vstd::string::*;

verus! {

/// The closed set of ecosystems a project can be classified as.
#[derive(Debug, Clone, Copy, PartialEq, Eq, Structural)]
pub enum ProjectType {
    Rust,
    NodeJs,
    Python,
    Go,
    Java,
    DotNet,
    Terraform,
    Ansible,
    Other,
}

/// The display string stored in the catalog for each ecosystem.
pub open spec fn type_label(t: ProjectType) -> Seq<char> {
    match t {
        ProjectType::Rust => "rust"@,
        ProjectType::NodeJs => "node"@,
        ProjectType::Python => "python"@,
        ProjectType::Go => "go"@,
        ProjectType::Java => "java"@,
        ProjectType::DotNet => ".net"@,
        ProjectType::Terraform => "terraform"@,
        ProjectType::Ansible => "ansible"@,
        ProjectType::Other => "other"@,
    }
}

impl ProjectType {
    pub fn as_str(&self) -> (r: &'static str)
        ensures
            r@ == type_label(*self),
    {
        match self {
            ProjectType::Rust => "rust",
            ProjectType::NodeJs => "node",
            ProjectType::Python => "python",
            ProjectType::Go => "go",
            ProjectType::Java => "java",
            ProjectType::DotNet => ".net",
            ProjectType::Terraform => "terraform",
            ProjectType::Ansible => "ansible",
            ProjectType::Other => "other",
        }
    }
}

/// The entry names of a directory listing, as character sequences.
pub open spec fn names_of(v: Seq<String>) -> Seq<Seq<char>> {
    v.map_values(|s: String| s@)
}

/// `f` is one of the entries directly in the listing.
pub open spec fn has_name(names: Seq<Seq<char>>, f: Seq<char>) -> bool {
    exists|i: int| 0 <= i < names.len() && names[i] == f
}

/// The file name has extension `ext` (which holds no dot): a dot that is not
/// the first character, followed by exactly `ext` up to the end.
pub open spec fn has_ext(name: Seq<char>, ext: Seq<char>) -> bool {
    &&& name.len() >= ext.len() + 2
    &&& name[name.len() - ext.len() - 1] == '.'
    &&& name.subrange(name.len() - ext.len(), name.len() as int) == ext
}

/// Some entry of the listing has extension `ext`.
pub open spec fn any_with_ext(names: Seq<Seq<char>>, ext: Seq<char>) -> bool {
    exists|i: int| 0 <= i < names.len() && has_ext(names[i], ext)
}

/// The marker rule of each ecosystem on the listing of the directory itself
/// (`Ansible` and `Other` have no rule on the directory's own entries).
pub open spec fn direct_rule(t: ProjectType, names: Seq<Seq<char>>) -> bool {
    match t {
        ProjectType::Rust => has_name(names, "Cargo.toml"@),
        ProjectType::NodeJs => has_name(names, "package.json"@),
        ProjectType::Python => has_name(names, "pyproject.toml"@) || has_name(
            names,
            "requirements.txt"@,
        ),
        ProjectType::Go => has_name(names, "go.mod"@),
        ProjectType::Java => has_name(names, "pom.xml"@) || has_name(names, "build.gradle"@)
            || has_name(names, "gradlew"@),
        ProjectType::DotNet => has_name(names, "global.json"@) || any_with_ext(names, "csproj"@),
        ProjectType::Terraform => has_name(names, "main.tf"@) || has_name(names, "variables.tf"@)
            || has_name(names, "outputs.tf"@),
        ProjectType::Ansible => false,
        ProjectType::Other => false,
    }
}

/// The nested-marker rule: an `ansible` subdirectory (given by its listing)
/// holding a `.yml` or `.yaml` entry.
pub open spec fn ansible_rule(ansible: Option<Seq<Seq<char>>>) -> bool {
    match ansible {
        Some(a) => any_with_ext(a, "yml"@) || any_with_ext(a, "yaml"@),
        None => false,
    }
}

/// Position of each ecosystem's rule in the first-match order.
pub open spec fn rule_rank(t: ProjectType) -> int {
    match t {
        ProjectType::Rust => 0,
        ProjectType::NodeJs => 1,
        ProjectType::Python => 2,
        ProjectType::Go => 3,
        ProjectType::Java => 4,
        ProjectType::DotNet => 5,
        ProjectType::Terraform => 6,
        ProjectType::Ansible => 7,
        ProjectType::Other => 8,
    }
}

/// Whether the rule of `t` holds for a directory with these entries and this
/// `ansible` subdirectory listing.
pub open spec fn rule_holds(
    t: ProjectType,
    names: Seq<Seq<char>>,
    ansible: Option<Seq<Seq<char>>>,
) -> bool {
    if t == ProjectType::Ansible {
        ansible_rule(ansible)
    } else {
        direct_rule(t, names)
    }
}

/// First match wins, in the fixed order of `rule_rank`.
pub open spec fn detect_spec(names: Seq<Seq<char>>, ansible: Option<Seq<Seq<char>>>) -> Option<
    ProjectType,
> {
    if direct_rule(ProjectType::Rust, names) {
        Some(ProjectType::Rust)
    } else if direct_rule(ProjectType::NodeJs, names) {
        Some(ProjectType::NodeJs)
    } else if direct_rule(ProjectType::Python, names) {
        Some(ProjectType::Python)
    } else if direct_rule(ProjectType::Go, names) {
        Some(ProjectType::Go)
    } else if direct_rule(ProjectType::Java, names) {
        Some(ProjectType::Java)
    } else if direct_rule(ProjectType::DotNet, names) {
        Some(ProjectType::DotNet)
    } else if direct_rule(ProjectType::Terraform, names) {
        Some(ProjectType::Terraform)
    } else if ansible_rule(ansible) {
        Some(ProjectType::Ansible)
    } else {
        None
    }
}

/// Detection precedence: when the rules of two ecosystems both hold, the one
/// earlier in the rule order is the result, whatever else the directory holds.
pub proof fn lemma_detection_precedence(
    names: Seq<Seq<char>>,
    ansible: Option<Seq<Seq<char>>>,
    a: ProjectType,
    b: ProjectType,
)
    requires
        rule_holds(a, names, ansible),
        rule_holds(b, names, ansible),
        rule_rank(a) < rule_rank(b),
    ensures
        detect_spec(names, ansible) != Some(b),
        exists|t: ProjectType|
            rule_rank(t) <= rule_rank(a) && detect_spec(names, ansible) == Some(t),
{
    let r = detect_spec(names, ansible);
    let t = r.unwrap();
    assert(rule_rank(t) <= rule_rank(a) && r == Some(t));
}

/// Whether `f` is one of the names.
pub fn contains_name(names: &Vec<String>, f: &str) -> (r: bool)
    ensures
        r == has_name(names_of(names@), f@),
{
    let target = String::from_str(f);
    let mut i: usize = 0;
    while i < names.len()
        invariant
            i <= names.len(),
            target@ == f@,
            forall|j: int| 0 <= j < i ==> names@[j]@ != f@,
        decreases names.len() - i,
    {
        if names[i] == target {
            assert(names_of(names@)[i as int] == f@);
            return true;
        }
        i = i + 1;
    }
    proof {
        if has_name(names_of(names@), f@) {
            let j = choose|j: int| 0 <= j < names_of(names@).len() && names_of(names@)[j] == f@;
            assert(names@[j]@ == f@);
        }
    }
    false
}

/// Whether the file name `name` has extension `ext`.
fn name_has_ext(name: &String, ext: &str) -> (r: bool)
    ensures
        r == has_ext(name@, ext@),
{
    let s = name.as_str();
    let n = s.unicode_len();
    let e = ext.unicode_len();
    if n < 2 || n - 2 < e {
        return false;
    }
    if s.get_char(n - e - 1) != '.' {
        return false;
    }
    let mut j: usize = 0;
    while j < e
        invariant
            s@ == name@,
            n == name@.len(),
            e == ext@.len(),
            n >= e + 2,
            j <= e,
            forall|k: int| 0 <= k < j ==> name@[n - e + k] == ext@[k],
        decreases e - j,
    {
        if s.get_char(n - e + j) != ext.get_char(j) {
            assert(name@.subrange(n - e, n as int)[j as int] != ext@[j as int]);
            return false;
        }
        j = j + 1;
    }
    assert(name@.subrange(n - e, n as int) =~= ext@);
    true
}

/// Whether some entry has extension `ext`.
fn contains_ext(names: &Vec<String>, ext: &str) -> (r: bool)
    ensures
        r == any_with_ext(names_of(names@), ext@),
{
    let mut i: usize = 0;
    while i < names.len()
        invariant
            i <= names.len(),
            forall|j: int| 0 <= j < i ==> !has_ext(names@[j]@, ext@),
        decreases names.len() - i,
    {
        if name_has_ext(&names[i], ext) {
            assert(names_of(names@)[i as int] == names@[i as int]@);
            return true;
        }
        i = i + 1;
    }
    proof {
        if any_with_ext(names_of(names@), ext@) {
            let j = choose|j: int|
                0 <= j < names_of(names@).len() && has_ext(names_of(names@)[j], ext@);
            assert(names_of(names@)[j] == names@[j]@);
        }
    }
    false
}

/// Classifies a directory from the names of its entries and, when it has an
/// `ansible` subdirectory, the names of that subdirectory's entries.
pub fn detect_project_type(names: &Vec<String>, ansible: Option<&Vec<String>>) -> (r: Option<
    ProjectType,
>)
    ensures
        r == detect_spec(
            names_of(names@),
            match ansible {
                Some(a) => Some(names_of(a@)),
                None => None,
            },
        ),
{
    if contains_name(names, "Cargo.toml") {
        return Some(ProjectType::Rust);
    }
    if contains_name(names, "package.json") {
        return Some(ProjectType::NodeJs);
    }
    if contains_name(names, "pyproject.toml") || contains_name(names, "requirements.txt") {
        return Some(ProjectType::Python);
    }
    if contains_name(names, "go.mod") {
        return Some(ProjectType::Go);
    }
    if contains_name(names, "pom.xml") || contains_name(names, "build.gradle") || contains_name(
        names,
        "gradlew",
    ) {
        return Some(ProjectType::Java);
    }
    if contains_name(names, "global.json") || contains_ext(names, "csproj") {
        return Some(ProjectType::DotNet);
    }
    if contains_name(names, "main.tf") || contains_name(names, "variables.tf") || contains_name(
        names,
        "outputs.tf",
    ) {
        return Some(ProjectType::Terraform);
    }
    match ansible {
        Some(a) => {
            if contains_ext(a, "yml") || contains_ext(a, "yaml") {
                return Some(ProjectType::Ansible);
            }
        },
        None => {},
    }
    None
}

/// Name of the version-control metadata directory.
pub open spec fn vcs_dir_name() -> Seq<char> {
    ".git"@
}

/// A directory is under version control iff a `.git` subdirectory sits
/// directly in it; `subdirs` names the directory's subdirectories.
pub fn is_git_repo(subdirs: &Vec<String>) -> (r: bool)
    ensures
        r == has_name(names_of(subdirs@), vcs_dir_name()),
{
    contains_name(subdirs, ".git")
}

} // verus!
