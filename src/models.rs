use vstd::prelude::*;

verus! {

/// The package ecosystem a dependency was declared in.
#[derive(Debug, Clone, Copy, PartialEq, Eq, Structural)]
pub enum ProjectLanguage {
    Rust,
    JavaScript,
}

/// The conceptual key of a dependency record: ecosystem, name and version.
pub type IdentityView = (ProjectLanguage, Seq<char>, Seq<char>);

/// The lower-case label of an ecosystem, as used in record keys.
pub open spec fn language_label(language: ProjectLanguage) -> Seq<char> {
    match language {
        ProjectLanguage::Rust => seq!['r', 'u', 's', 't'],
        ProjectLanguage::JavaScript => seq!['j', 'a', 'v', 'a', 's', 'c', 'r', 'i', 'p', 't'],
    }
}

impl ProjectLanguage {
    /// The lower-case label of the ecosystem.
    pub fn label(&self) -> (r: String)
        ensures
            r@ == language_label(*self),
    {
        match self {
            ProjectLanguage::Rust => {
                let s = String::from_str("rust");
                proof {
                    reveal_strlit("rust");
                }
                assert(s@ =~= language_label(*self));
                s
            },
            ProjectLanguage::JavaScript => {
                let s = String::from_str("javascript");
                proof {
                    reveal_strlit("javascript");
                }
                assert(s@ =~= language_label(*self));
                s
            },
        }
    }
}

/// One dependency reported by a collector.
#[derive(Debug)]
pub struct CollectorDependency {
    pub name: String,
    pub version: String,
    pub language: ProjectLanguage,
}

impl View for CollectorDependency {
    type V = IdentityView;

    open spec fn view(&self) -> IdentityView {
        (self.language, self.name@, self.version@)
    }
}

/// The identities of a sequence of collected dependencies, in order.
pub open spec fn identities(deps: Seq<CollectorDependency>) -> Seq<IdentityView> {
    deps.map_values(|d: CollectorDependency| d@)
}

impl CollectorDependency {
    pub fn new(name: String, version: String, language: ProjectLanguage) -> (r: Self)
        ensures
            r.name == name,
            r.version == version,
            r.language == language,
    {
        CollectorDependency { name, version, language }
    }
}

/// The key under which a dependency is stored: `<language>:<name>:<version>`.
pub open spec fn record_key(language: ProjectLanguage, name: Seq<char>, version: Seq<char>) -> Seq<char> {
    language_label(language) + seq![':'] + name + seq![':'] + version
}

/// The table that holds dependency records.
pub open spec fn dependency_table() -> Seq<char> {
    seq!['d', 'e', 'p', 'e', 'n', 'd', 'e', 'n', 'c', 'y']
}

/// The address of a record: its table and its key within the table.
#[derive(Debug)]
pub struct RecordId {
    pub table: String,
    pub key: String,
}

/// A dependency ready to be written, addressed by its normalised key.
#[derive(Debug)]
pub struct InsertDependency {
    pub id: RecordId,
    pub name: String,
    pub version: String,
    pub language: ProjectLanguage,
}

impl InsertDependency {
    pub fn new(name: String, version: String, language: ProjectLanguage) -> (r: Self)
        ensures
            r.name == name,
            r.version == version,
            r.language == language,
            r.id.table@ == dependency_table(),
            r.id.key@ == record_key(language, name@, version@),
    {
        let mut key = language.label();
        key.append(":");
        key.append(name.as_str());
        key.append(":");
        key.append(version.as_str());
        proof {
            reveal_strlit(":");
        }
        assert(key@ =~= record_key(language, name@, version@));
        let table = String::from_str("dependency");
        proof {
            reveal_strlit("dependency");
        }
        assert(table@ =~= dependency_table());
        InsertDependency { id: RecordId { table, key }, name, version, language }
    }
}

} // verus!
