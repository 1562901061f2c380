//! The registry of watched status files, keyed by repository name.
use vstd::prelude::*;
use vstd::string::*;
use crate::paths::{
    discover_status_file, file_name, file_name_of, first_status_name, has_extension,
    has_extension_spec, holds_at, is_status_file_name, join_of, join_path,
    lemma_no_status_file, lemma_single_status_file, names_of,
};

verus! {

/// Where the status file of one repository lies.
pub struct RepoConfig {
    pub status_file: String,
}

/// Failures of the registry's operations.
#[derive(Debug, Clone, Copy, PartialEq, Eq, Structural)]
pub enum RegistryError {
    /// The path given to watch does not exist.
    PathNotFound,
    /// A directory given to watch holds no `status_*.json` file.
    NoStatusFileFound,
    /// The backing text could not be read as a registry, or written as one.
    ConfigCorrupt,
}

/// The registry: its backing file and its entries, each repository name once.
pub struct Config {
    pub file_path: String,
    pub toml_data: Vec<(String, RepoConfig)>,
}

/// The text form of a registry: one table per repository, holding named fields.
pub type RegistryTable = Vec<(String, Vec<(String, String)>)>;

pub open spec fn pairs_of(v: Seq<(String, RepoConfig)>) -> Seq<(Seq<char>, Seq<char>)> {
    v.map_values(|e: (String, RepoConfig)| (e.0@, e.1.status_file@))
}

pub open spec fn keys_unique(s: Seq<(Seq<char>, Seq<char>)>) -> bool {
    forall|i: int, j: int| 0 <= i < s.len() && 0 <= j < s.len() && s[i].0 == s[j].0 ==> i == j
}

pub open spec fn has_key(s: Seq<(Seq<char>, Seq<char>)>, k: Seq<char>) -> bool {
    exists|i: int| 0 <= i < s.len() && s[i].0 == k
}

/// The mapping that a sequence of pairs with distinct keys stands for.
pub open spec fn map_of(s: Seq<(Seq<char>, Seq<char>)>) -> Map<Seq<char>, Seq<char>> {
    Map::new(
        |k: Seq<char>| has_key(s, k),
        |k: Seq<char>| s[choose|i: int| 0 <= i < s.len() && s[i].0 == k].1,
    )
}

pub open spec fn name_view(n: Option<String>) -> Option<Seq<char>> {
    match n {
        Some(s) => Some(s@),
        None => None,
    }
}

pub open spec fn status_key() -> Seq<char> {
    seq!['s', 't', 'a', 't', 'u', 's', '_', 'f', 'i', 'l', 'e']
}

pub open spec fn fields_view(f: Seq<(String, String)>) -> Seq<(Seq<char>, Seq<char>)> {
    f.map_values(|p: (String, String)| (p.0@, p.1@))
}

pub open spec fn table_view(t: Seq<(String, Vec<(String, String)>)>) -> Seq<
    (Seq<char>, Seq<(Seq<char>, Seq<char>)>),
> {
    t.map_values(|e: (String, Vec<(String, String)>)| (e.0@, fields_view(e.1@)))
}

/// The value of the last field named `k`.
pub open spec fn field_value(f: Seq<(Seq<char>, Seq<char>)>, k: Seq<char>) -> Option<Seq<char>>
    decreases f.len(),
{
    if f.len() == 0 {
        None
    } else if f.last().0 == k {
        Some(f.last().1)
    } else {
        field_value(f.drop_last(), k)
    }
}

/// The registry that a table stands for: each repository's `status_file` field, a
/// later table replacing an earlier one of the same name; none when a table lacks
/// that field.
pub open spec fn registry_of_table(t: Seq<(Seq<char>, Seq<(Seq<char>, Seq<char>)>)>) -> Option<
    Map<Seq<char>, Seq<char>>,
>
    decreases t.len(),
{
    if t.len() == 0 {
        Some(Map::empty())
    } else {
        match (registry_of_table(t.drop_last()), field_value(t.last().1, status_key())) {
            (Some(m), Some(v)) => Some(m.insert(t.last().0, v)),
            _ => None,
        }
    }
}

/// The table of a registry's entries: one `status_file` field each.
pub open spec fn table_of(s: Seq<(Seq<char>, Seq<char>)>) -> Seq<
    (Seq<char>, Seq<(Seq<char>, Seq<char>)>),
> {
    s.map_values(|p: (Seq<char>, Seq<char>)| (p.0, seq![(status_key(), p.1)]))
}

/// What watching `path` resolves to: the repository name and the status file, or
/// the error. A path that is not a directory and whose name has an extension is
/// the status file itself; any other path is searched, through `listing`, the
/// names of its entries (none when it is not a directory).
pub open spec fn watch_outcome(
    path: Seq<char>,
    exists: bool,
    is_dir: bool,
    listing: Seq<Seq<char>>,
    repo_name: Option<Seq<char>>,
) -> Result<(Seq<char>, Seq<char>), RegistryError> {
    if !exists {
        Err(RegistryError::PathNotFound)
    } else {
        let name = match repo_name {
            Some(n) => n,
            None => file_name_of(path),
        };
        if !is_dir && has_extension_spec(file_name_of(path)) {
            Ok((name, path))
        } else {
            match first_status_name(listing) {
                None => Err(RegistryError::NoStatusFileFound),
                Some(f) => Ok((name, join_of(path, f))),
            }
        }
    }
}

/// Relies on toml::to_string: the text of a map of tables of string fields,
/// which depends on the tables alone.
pub uninterp spec fn toml_text_of(t: Seq<(Seq<char>, Seq<(Seq<char>, Seq<char>)>)>) -> Seq<char>;

/// Relies on toml::from_str: the map of tables of string fields that a text
/// holds, or none when it holds no such map.
pub uninterp spec fn toml_table_of(text: Seq<char>) -> Option<
    Seq<(Seq<char>, Seq<(Seq<char>, Seq<char>)>)>,
>;

#[verifier::external_type_specification]
#[verifier::external_body]
pub struct ExTomlSerError(toml::ser::Error);

#[verifier::external_type_specification]
#[verifier::external_body]
pub struct ExTomlDeError(toml::de::Error);

/// Relies on toml::to_string, applied to the tables as an ordered map of ordered
/// maps of strings: such a map is a document of tables of string values, which
/// the serializer always writes.
#[verifier::external_body]
fn table_to_toml(t: &RegistryTable) -> (r: Result<String, toml::ser::Error>)
    ensures
        r is Ok,
        r matches Ok(s) ==> s@ == toml_text_of(table_view(t@)),
{
    let m: std::collections::BTreeMap<&String, std::collections::BTreeMap<&String, &String>> =
        t.iter().map(|(k, f)| (k, f.iter().map(|(a, b)| (a, b)).collect())).collect();
    toml::to_string(&m)
}

/// Relies on toml::from_str, reading an ordered map of ordered maps of strings.
#[verifier::external_body]
fn toml_to_table(text: &str) -> (r: Result<RegistryTable, toml::de::Error>)
    ensures
        match r {
            Ok(t) => toml_table_of(text@) == Some(table_view(t@)),
            Err(_) => toml_table_of(text@) is None,
        },
{
    toml::from_str::<
        std::collections::BTreeMap<String, std::collections::BTreeMap<String, String>>,
    >(text).map(|m| m.into_iter().map(|(k, f)| (k, f.into_iter().collect())).collect())
}

proof fn lemma_map_at(s: Seq<(Seq<char>, Seq<char>)>, i: int)
    requires
        keys_unique(s),
        0 <= i < s.len(),
    ensures
        map_of(s).contains_key(s[i].0),
        map_of(s)[s[i].0] == s[i].1,
{
    let k = s[i].0;
    assert(has_key(s, k));
    let j = choose|j: int| 0 <= j < s.len() && s[j].0 == k;
    assert(j == i);
}

proof fn lemma_map_push(s: Seq<(Seq<char>, Seq<char>)>, k: Seq<char>, v: Seq<char>)
    requires
        keys_unique(s),
        !has_key(s, k),
    ensures
        keys_unique(s.push((k, v))),
        map_of(s.push((k, v))) =~= map_of(s).insert(k, v),
{
    let t = s.push((k, v));
    assert(keys_unique(t));
    assert forall|k2: Seq<char>| #[trigger] map_of(t).contains_key(k2) == map_of(s).insert(
        k,
        v,
    ).contains_key(k2) by {
        if has_key(t, k2) {
            let i = choose|i: int| 0 <= i < t.len() && t[i].0 == k2;
            if i < s.len() {
                assert(s[i] == t[i]);
            }
        }
        if has_key(s, k2) {
            let i = choose|i: int| 0 <= i < s.len() && s[i].0 == k2;
            assert(t[i] == s[i]);
        }
        if k2 == k {
            assert(t[s.len() as int].0 == k);
        }
    }
    assert forall|k2: Seq<char>| #[trigger] map_of(t).contains_key(k2) implies map_of(t)[k2]
        == map_of(s).insert(k, v)[k2] by {
        let i = choose|i: int| 0 <= i < t.len() && t[i].0 == k2;
        lemma_map_at(t, i);
        if i < s.len() {
            assert(s[i] == t[i]);
            lemma_map_at(s, i);
        }
    }
}

proof fn lemma_map_update(s: Seq<(Seq<char>, Seq<char>)>, j: int, v: Seq<char>)
    requires
        keys_unique(s),
        0 <= j < s.len(),
    ensures
        keys_unique(s.update(j, (s[j].0, v))),
        map_of(s.update(j, (s[j].0, v))) =~= map_of(s).insert(s[j].0, v),
{
    let k = s[j].0;
    let t = s.update(j, (k, v));
    assert(keys_unique(t));
    assert forall|k2: Seq<char>| #[trigger] map_of(t).contains_key(k2) == map_of(s).insert(
        k,
        v,
    ).contains_key(k2) by {
        if has_key(t, k2) {
            let i = choose|i: int| 0 <= i < t.len() && t[i].0 == k2;
            assert(s[i].0 == t[i].0);
        }
        if has_key(s, k2) {
            let i = choose|i: int| 0 <= i < s.len() && s[i].0 == k2;
            assert(t[i].0 == s[i].0);
        }
        if k2 == k {
            assert(t[j].0 == k);
        }
    }
    assert forall|k2: Seq<char>| #[trigger] map_of(t).contains_key(k2) implies map_of(t)[k2]
        == map_of(s).insert(k, v)[k2] by {
        let i = choose|i: int| 0 <= i < t.len() && t[i].0 == k2;
        lemma_map_at(t, i);
        if i != j {
            lemma_map_at(s, i);
        }
    }
}

proof fn lemma_map_remove(s: Seq<(Seq<char>, Seq<char>)>, j: int)
    requires
        keys_unique(s),
        0 <= j < s.len(),
    ensures
        keys_unique(s.remove(j)),
        map_of(s.remove(j)) =~= map_of(s).remove(s[j].0),
{
    let k = s[j].0;
    let t = s.remove(j);
    assert forall|a: int, b: int|
        0 <= a < t.len() && 0 <= b < t.len() && t[a].0 == t[b].0 implies a == b by {
        let a2 = if a < j { a } else { a + 1 };
        let b2 = if b < j { b } else { b + 1 };
        assert(t[a] == s[a2]);
        assert(t[b] == s[b2]);
    }
    assert forall|k2: Seq<char>| #[trigger] map_of(t).contains_key(k2) == map_of(s).remove(
        k,
    ).contains_key(k2) by {
        if has_key(t, k2) {
            let i = choose|i: int| 0 <= i < t.len() && t[i].0 == k2;
            let i2 = if i < j { i } else { i + 1 };
            assert(t[i] == s[i2]);
        }
        if has_key(s, k2) && k2 != k {
            let i = choose|i: int| 0 <= i < s.len() && s[i].0 == k2;
            let i2 = if i < j { i } else { i - 1 };
            assert(t[i2] == s[i]);
        }
    }
    assert forall|k2: Seq<char>| #[trigger] map_of(t).contains_key(k2) implies map_of(t)[k2]
        == map_of(s).remove(k)[k2] by {
        let i = choose|i: int| 0 <= i < t.len() && t[i].0 == k2;
        let i2 = if i < j { i } else { i + 1 };
        assert(t[i] == s[i2]);
        lemma_map_at(t, i);
        lemma_map_at(s, i2);
    }
}

/// Whether two texts are equal.
fn same_text(a: &str, b: &str) -> (r: bool)
    ensures
        r == (a@ == b@),
{
    let r = a.unicode_len() == b.unicode_len() && holds_at(a, 0, b);
    assert(a@ =~= a@.subrange(0, a@.len() as int));
    r
}

impl View for Config {
    type V = Map<Seq<char>, Seq<char>>;

    open spec fn view(&self) -> Map<Seq<char>, Seq<char>> {
        map_of(pairs_of(self.toml_data@))
    }
}

impl Config {
    /// Each repository name stands once.
    pub open spec fn wf(&self) -> bool {
        keys_unique(pairs_of(self.toml_data@))
    }

    /// An empty registry backed by `file_path`.
    pub fn empty(file_path: String) -> (r: Config)
        ensures
            r.wf(),
            r@ == Map::<Seq<char>, Seq<char>>::empty(),
            r.file_path == file_path,
    {
        let r = Config { file_path, toml_data: Vec::new() };
        assert(r@ =~= Map::<Seq<char>, Seq<char>>::empty());
        r
    }

    /// Position of the entry of `name`, if there is one.
    fn find(&self, name: &str) -> (r: Option<usize>)
        requires
            self.wf(),
        ensures
            match r {
                None => !self@.contains_key(name@),
                Some(i) => i < self.toml_data@.len() && pairs_of(self.toml_data@)[i as int].0
                    == name@,
            },
    {
        let ghost s = pairs_of(self.toml_data@);
        let mut i: usize = 0;
        while i < self.toml_data.len()
            invariant
                i <= self.toml_data@.len(),
                s == pairs_of(self.toml_data@),
                forall|k: int| 0 <= k < i ==> s[k].0 != name@,
            decreases self.toml_data@.len() - i,
        {
            if same_text(self.toml_data[i].0.as_str(), name) {
                return Some(i);
            }
            i = i + 1;
        }
        None
    }

    /// Records `status_file` under `name`, replacing an entry of that name.
    pub fn insert_entry(&mut self, name: String, status_file: String)
        requires
            old(self).wf(),
        ensures
            final(self).wf(),
            final(self)@ == old(self)@.insert(name@, status_file@),
            final(self).file_path == old(self).file_path,
    {
        let ghost s = pairs_of(self.toml_data@);
        match self.find(name.as_str()) {
            Some(i) => {
                let ghost v = status_file@;
                self.toml_data.set(i, (name, RepoConfig { status_file }));
                proof {
                    lemma_map_update(s, i as int, v);
                    assert(pairs_of(self.toml_data@) =~= s.update(i as int, (s[i as int].0, v)));
                }
            },
            None => {
                let ghost k = name@;
                let ghost v = status_file@;
                self.toml_data.push((name, RepoConfig { status_file }));
                proof {
                    lemma_map_push(s, k, v);
                    assert(pairs_of(self.toml_data@) =~= s.push((k, v)));
                }
            },
        }
    }

    /// Watches the file that `path` resolves to, under `repo_name` or else the
    /// last component of `path`, and returns that name. `exists` says whether
    /// `path` exists, `is_dir` whether it is a directory; `listing` names the
    /// entries of `path` when it is a directory.
    pub fn watch_file(
        &mut self,
        path: String,
        exists: bool,
        is_dir: bool,
        listing: &Vec<String>,
        repo_name: Option<String>,
    ) -> (r: Result<String, RegistryError>)
        requires
            old(self).wf(),
        ensures
            final(self).wf(),
            final(self).file_path == old(self).file_path,
            match watch_outcome(path@, exists, is_dir, names_of(listing@), name_view(repo_name)) {
                Err(e) => r == Err::<String, RegistryError>(e) && final(self)@ == old(self)@,
                Ok((n, f)) => r matches Ok(name) && name@ == n && final(self)@ == old(self)@.insert(
                    n,
                    f,
                ),
            },
    {
        if !exists {
            return Err(RegistryError::PathNotFound);
        }
        let base = file_name(path.as_str());
        let status_file = if !is_dir && has_extension(base.as_str()) {
            path
        } else {
            match discover_status_file(listing) {
                None => {
                    return Err(RegistryError::NoStatusFileFound);
                },
                Some(f) => join_path(path.as_str(), f.as_str()),
            }
        };
        let name = match repo_name {
            Some(n) => n,
            None => base,
        };
        let answer = name.clone();
        self.insert_entry(name, status_file);
        Ok(answer)
    }

    /// Every (repository name, status file) pair, each name once.
    pub fn list_all(&self) -> (r: Vec<(String, String)>)
        requires
            self.wf(),
        ensures
            fields_view(r@) == pairs_of(self.toml_data@),
            keys_unique(fields_view(r@)),
            map_of(fields_view(r@)) == self@,
    {
        let mut r: Vec<(String, String)> = Vec::new();
        let mut i: usize = 0;
        while i < self.toml_data.len()
            invariant
                i <= self.toml_data@.len(),
                fields_view(r@) =~= pairs_of(self.toml_data@).subrange(0, i as int),
            decreases self.toml_data@.len() - i,
        {
            let e = &self.toml_data[i];
            let name = e.0.clone();
            let file = e.1.status_file.clone();
            let ghost before = r@;
            r.push((name, file));
            assert(r@ == before.push((name, file)));
            assert(fields_view(r@) =~= fields_view(before).push((name@, file@)));
            assert(fields_view(r@) =~= pairs_of(self.toml_data@).subrange(0, i + 1));
            i = i + 1;
        }
        assert(fields_view(r@) =~= pairs_of(self.toml_data@));
        r
    }

    /// Removes the entry of `repo_name` and returns its status file, if there
    /// was one.
    pub fn remove(&mut self, repo_name: String) -> (r: Option<String>)
        requires
            old(self).wf(),
        ensures
            final(self).wf(),
            final(self).file_path == old(self).file_path,
            final(self)@ == old(self)@.remove(repo_name@),
            match r {
                Some(f) => old(self)@.contains_key(repo_name@) && f@ == old(self)@[repo_name@],
                None => !old(self)@.contains_key(repo_name@),
            },
    {
        let ghost s = pairs_of(self.toml_data@);
        match self.find(repo_name.as_str()) {
            None => {
                assert(self@ =~= self@.remove(repo_name@));
                None
            },
            Some(i) => {
                proof {
                    lemma_map_at(s, i as int);
                    lemma_map_remove(s, i as int);
                }
                let e = self.toml_data.remove(i);
                assert(pairs_of(self.toml_data@) =~= s.remove(i as int));
                Some(e.1.status_file)
            },
        }
    }

    /// The table form of the registry.
    fn to_table(&self) -> (r: RegistryTable)
        ensures
            table_view(r@) == table_of(pairs_of(self.toml_data@)),
    {
        let mut r: RegistryTable = Vec::new();
        let mut i: usize = 0;
        while i < self.toml_data.len()
            invariant
                i <= self.toml_data@.len(),
                table_view(r@) =~= table_of(pairs_of(self.toml_data@)).subrange(0, i as int),
            decreases self.toml_data@.len() - i,
        {
            let e = &self.toml_data[i];
            let key = "status_file".to_string();
            proof {
                reveal_strlit("status_file");
                assert(key@ =~= status_key());
            }
            let mut fields: Vec<(String, String)> = Vec::new();
            fields.push((key, e.1.status_file.clone()));
            assert(fields_view(fields@) =~= seq![(status_key(), e.1.status_file@)]);
            let name = e.0.clone();
            let ghost before = r@;
            r.push((name, fields));
            assert(r@ == before.push((name, fields)));
            assert(table_view(r@) =~= table_view(before).push((name@, fields_view(fields@))));
            assert(table_view(r@) =~= table_of(pairs_of(self.toml_data@)).subrange(0, i + 1));
            i = i + 1;
        }
        assert(table_view(r@) =~= table_of(pairs_of(self.toml_data@)));
        r
    }

    /// The text to persist the registry as.
    pub fn to_text(&self) -> (r: Result<String, RegistryError>)
        ensures
            r is Ok,
            match r {
                Ok(s) => s@ == toml_text_of(table_of(pairs_of(self.toml_data@))),
                Err(e) => e == RegistryError::ConfigCorrupt,
            },
    {
        let t = self.to_table();
        match table_to_toml(&t) {
            Ok(s) => Ok(s),
            Err(_) => Err(RegistryError::ConfigCorrupt),
        }
    }
}

/// The last field of `fields` named `status_file`.
fn status_field(fields: &Vec<(String, String)>) -> (r: Option<String>)
    ensures
        match r {
            None => field_value(fields_view(fields@), status_key()) is None,
            Some(v) => field_value(fields_view(fields@), status_key()) == Some(v@),
        },
{
    let mut found: Option<String> = None;
    let mut i: usize = 0;
    proof {
        reveal_strlit("status_file");
        assert("status_file"@ =~= status_key());
    }
    while i < fields.len()
        invariant
            i <= fields@.len(),
            "status_file"@ == status_key(),
            match found {
                None => field_value(fields_view(fields@).subrange(0, i as int), status_key()) is None,
                Some(v) => field_value(fields_view(fields@).subrange(0, i as int), status_key())
                    == Some(v@),
            },
        decreases fields@.len() - i,
    {
        let ghost f = fields_view(fields@);
        assert(f.subrange(0, i + 1).drop_last() =~= f.subrange(0, i as int));
        if same_text(fields[i].0.as_str(), "status_file") {
            found = Some(fields[i].1.clone());
        }
        i = i + 1;
    }
    assert(fields_view(fields@).subrange(0, i as int) =~= fields_view(fields@));
    found
}

/// The registry backed by `file_path` whose text is `text`.
fn decode(file_path: String, text: &str) -> (r: Result<Config, RegistryError>)
    ensures
        match toml_table_of(text@) {
            None => r == Err::<Config, RegistryError>(RegistryError::ConfigCorrupt),
            Some(t) => match registry_of_table(t) {
                None => r == Err::<Config, RegistryError>(RegistryError::ConfigCorrupt),
                Some(m) => r matches Ok(c) && c.wf() && c@ == m && c.file_path == file_path,
            },
        },
{
    let read = toml_to_table(text);
    let t = match read {
        Ok(t) => t,
        Err(_) => {
            return Err(RegistryError::ConfigCorrupt);
        },
    };
    let ghost tv = table_view(t@);
    let mut c = Config::empty(file_path);
    let mut i: usize = 0;
    assert(tv.subrange(0, 0).len() == 0);
    while i < t.len()
        invariant
            i <= t@.len(),
            tv == table_view(t@),
            toml_table_of(text@) == Some(tv),
            c.wf(),
            c.file_path == file_path,
            registry_of_table(tv.subrange(0, i as int)) == Some(c@),
        decreases t@.len() - i,
    {
        assert(tv.subrange(0, i + 1).drop_last() =~= tv.subrange(0, i as int));
        assert(tv.subrange(0, i + 1).last() == tv[i as int]);
        assert(tv[i as int].1 == fields_view(t@[i as int].1@));
        assert(tv[i as int].0 == t@[i as int].0@);
        match status_field(&t[i].1) {
            None => {
                proof {
                    assert(registry_of_table(tv.subrange(0, i + 1)) is None);
                    lemma_table_fails_on_prefix(tv, i + 1);
                }
                return Err(RegistryError::ConfigCorrupt);
            },
            Some(v) => {
                c.insert_entry(t[i].0.clone(), v);
            },
        }
        i = i + 1;
    }
    assert(tv.subrange(0, i as int) =~= tv);
    Ok(c)
}

proof fn lemma_table_fails_on_prefix(t: Seq<(Seq<char>, Seq<(Seq<char>, Seq<char>)>)>, n: int)
    requires
        0 <= n <= t.len(),
        registry_of_table(t.subrange(0, n)) is None,
    ensures
        registry_of_table(t) is None,
    decreases t.len() - n,
{
    if n < t.len() {
        assert(t.subrange(0, n + 1).drop_last() =~= t.subrange(0, n));
        lemma_table_fails_on_prefix(t, n + 1);
    } else {
        assert(t.subrange(0, n) =~= t);
    }
}

impl Config {
    /// The registry backed by `file_path`: empty when there is no backing text,
    /// else the one that `text` holds.
    pub fn create_or_load(file_path: String, text: Option<String>) -> (r: Result<
        Config,
        RegistryError,
    >)
        ensures
            r matches Ok(c) ==> c.wf() && c.file_path == file_path,
            match text {
                None => r matches Ok(c) && c@ == Map::<Seq<char>, Seq<char>>::empty(),
                Some(s) => match toml_table_of(s@) {
                    None => r == Err::<Config, RegistryError>(RegistryError::ConfigCorrupt),
                    Some(t) => match registry_of_table(t) {
                        None => r == Err::<Config, RegistryError>(RegistryError::ConfigCorrupt),
                        Some(m) => r matches Ok(c) && c@ == m,
                    },
                },
            },
    {
        match text {
            None => Ok(Config::empty(file_path)),
            Some(s) => decode(file_path, s.as_str()),
        }
    }

    /// Replaces the entries with those of the backing text, when there is one.
    /// On failure the entries stay as they were.
    pub fn reload(&mut self, text: Option<String>) -> (r: Result<(), RegistryError>)
        requires
            old(self).wf(),
        ensures
            final(self).wf(),
            final(self).file_path == old(self).file_path,
            match text {
                None => r is Ok && final(self)@ == old(self)@,
                Some(s) => match toml_table_of(s@) {
                    None => r == Err::<(), RegistryError>(RegistryError::ConfigCorrupt)
                        && final(self)@ == old(self)@,
                    Some(t) => match registry_of_table(t) {
                        None => r == Err::<(), RegistryError>(RegistryError::ConfigCorrupt)
                            && final(self)@ == old(self)@,
                        Some(m) => r is Ok && final(self)@ == m,
                    },
                },
            },
    {
        match text {
            None => Ok(()),
            Some(s) => match decode(self.file_path.clone(), s.as_str()) {
                Ok(c) => {
                    self.toml_data = c.toml_data;
                    Ok(())
                },
                Err(e) => Err(e),
            },
        }
    }
}

/// Watching a path records the resolved file under the resolved name, where a
/// list of the registry shows it; removing that name then takes it out of the
/// list.
pub proof fn lemma_watch_then_list(
    registry: Map<Seq<char>, Seq<char>>,
    path: Seq<char>,
    is_dir: bool,
    listing: Seq<Seq<char>>,
    repo_name: Option<Seq<char>>,
)
    requires
        watch_outcome(path, true, is_dir, listing, repo_name) is Ok,
    ensures
        ({
            let (n, f) = watch_outcome(path, true, is_dir, listing, repo_name)->Ok_0;
            let watched = registry.insert(n, f);
            &&& watched.contains_key(n)
            &&& watched[n] == f
            &&& !watched.remove(n).contains_key(n)
        }),
{
}

/// Watching a directory (whatever its name), or a path without an extension,
/// whose listing holds exactly one status file resolves to that file, under the
/// path's own name; one whose listing holds none fails.
pub proof fn lemma_watch_directory(path: Seq<char>, is_dir: bool, listing: Seq<Seq<char>>, j: int)
    requires
        is_dir || !has_extension_spec(file_name_of(path)),
        0 <= j < listing.len(),
    ensures
        (is_status_file_name(listing[j]) && forall|k: int|
            0 <= k < listing.len() && k != j ==> !is_status_file_name(#[trigger] listing[k]))
            ==> watch_outcome(path, true, is_dir, listing, None) == Ok::<
            (Seq<char>, Seq<char>),
            RegistryError,
        >((file_name_of(path), join_of(path, listing[j]))),
        (forall|k: int| 0 <= k < listing.len() ==> !is_status_file_name(#[trigger] listing[k]))
            ==> watch_outcome(path, true, is_dir, listing, None) == Err::<
            (Seq<char>, Seq<char>),
            RegistryError,
        >(RegistryError::NoStatusFileFound),
{
    if is_status_file_name(listing[j]) && forall|k: int|
        0 <= k < listing.len() && k != j ==> !is_status_file_name(#[trigger] listing[k]) {
        lemma_single_status_file(listing, j);
    }
    if forall|k: int| 0 <= k < listing.len() ==> !is_status_file_name(#[trigger] listing[k]) {
        lemma_no_status_file(listing);
    }
}

/// Watching a file whose name has an extension takes that path as it is, under
/// the file's own name.
pub proof fn lemma_watch_file_with_extension(path: Seq<char>, listing: Seq<Seq<char>>)
    requires
        has_extension_spec(file_name_of(path)),
    ensures
        watch_outcome(path, true, false, listing, None) == Ok::<(Seq<char>, Seq<char>), RegistryError>(
            (file_name_of(path), path),
        ),
{
}

/// The table that a registry is written as stands for the same registry.
pub proof fn lemma_table_round_trip(c: Config)
    requires
        c.wf(),
    ensures
        registry_of_table(table_of(pairs_of(c.toml_data@))) == Some(c@),
{
    let s = pairs_of(c.toml_data@);
    lemma_table_round_trip_seq(s);
}

proof fn lemma_table_round_trip_seq(s: Seq<(Seq<char>, Seq<char>)>)
    requires
        keys_unique(s),
    ensures
        registry_of_table(table_of(s)) == Some(map_of(s)),
    decreases s.len(),
{
    if s.len() == 0 {
        assert(map_of(s) =~= Map::<Seq<char>, Seq<char>>::empty());
    } else {
        let p = s.drop_last();
        assert(keys_unique(p));
        lemma_table_round_trip_seq(p);
        assert(table_of(s).drop_last() =~= table_of(p));
        let fields = table_of(s).last().1;
        assert(fields.drop_last().len() == 0);
        assert(field_value(fields, status_key()) == Some(s.last().1));
        assert(!has_key(p, s.last().0)) by {
            if has_key(p, s.last().0) {
                let i = choose|i: int| 0 <= i < p.len() && p[i].0 == s.last().0;
                assert(s[i].0 == s[s.len() - 1].0);
            }
        }
        lemma_map_push(p, s.last().0, s.last().1);
        assert(p.push(s.last()) =~= s);
    }
}

} // verus!
