use vstd::prelude::*;
use crate::text::{chars_of, push_char, string_of};

verus! {

/// Settings of one operating system.
pub struct PlatformSettings {
    pub mihomo_binary: String,
    pub service_name: String,
    pub service_wrapper: Option<String>,
    pub config_dir: String,
    pub backup_dir: String,
    pub log_dir: String,
    pub system_paths: Vec<String>,
    pub kill_command: String,
    pub kill_args: Vec<String>,
    pub service_install_command: String,
    pub service_start_command: String,
    pub service_stop_command: String,
    pub service_query_command: String,
    pub service_unit_dir: Option<String>,
    pub service_plist_dir: Option<String>,
    pub autostart_registry_key: Option<String>,
    pub autostart_value_name: Option<String>,
    pub autostart_dir: Option<String>,
    pub autostart_file: Option<String>,
}

/// Settings shared by all operating systems.
pub struct CommonSettings {
    pub config_filename: String,
    pub backup_prefix: String,
    pub max_backups: usize,
    pub api_host: String,
    pub api_port: u16,
}

/// The settings of every supported operating system.
pub struct PlatformConfig {
    pub windows: Option<PlatformSettings>,
    pub linux: Option<PlatformSettings>,
    pub macos: Option<PlatformSettings>,
    pub common: CommonSettings,
}

#[derive(Clone, Copy, Debug, PartialEq, Eq, Structural)]
pub enum Os {
    Windows,
    Linux,
    MacOs,
}

/// Why a platform path could not be had.
#[derive(Debug)]
pub enum PlatformError {
    /// The configuration has no section for the operating system.
    MissingPlatform,
    /// A path names an environment variable that is not set.
    MissingVariable { name: String },
    /// Expanding a path took more than `MAX_SUBSTITUTIONS` substitutions.
    TooManySubstitutions,
}

pub open spec fn settings_for(c: PlatformConfig, os: Os) -> Option<PlatformSettings> {
    match os {
        Os::Windows => c.windows,
        Os::Linux => c.linux,
        Os::MacOs => c.macos,
    }
}

impl PlatformConfig {
    /// The settings of operating system `os`.
    pub fn current_platform(&self, os: Os) -> (r: Result<&PlatformSettings, PlatformError>)
        ensures
            r matches Ok(s) ==> settings_for(*self, os) == Some(*s),
            r is Err <==> settings_for(*self, os) is None,
            r matches Err(e) ==> e is MissingPlatform,
    {
        let section = match os {
            Os::Windows => &self.windows,
            Os::Linux => &self.linux,
            Os::MacOs => &self.macos,
        };
        match section {
            Some(s) => Ok(s),
            None => Err(PlatformError::MissingPlatform),
        }
    }

    /// The settings shared by all operating systems.
    pub fn common(&self) -> (r: &CommonSettings)
        ensures
            *r == self.common,
    {
        &self.common
    }
}

/// The value of variable `name` in `env`: the first pair that names it.
pub open spec fn env_lookup(env: Seq<(String, String)>, name: Seq<char>) -> Option<Seq<char>>
    decreases env.len(),
{
    if env.len() == 0 {
        None
    } else if env[0].0@ == name {
        Some(env[0].1@)
    } else {
        env_lookup(env.subrange(1, env.len() as int), name)
    }
}

/// Most substitutions one path may take; a path that needs more (a value
/// that keeps bringing in new references) is refused.
pub const MAX_SUBSTITUTIONS: usize = 64;

/// The first `${` of `s` at or after `from`.
pub open spec fn first_open(s: Seq<char>, from: int) -> Option<int>
    decreases s.len() - from,
{
    if from < 0 || from + 1 >= s.len() {
        None
    } else if s[from] == '$' && s[from + 1] == '{' {
        Some(from)
    } else {
        first_open(s, from + 1)
    }
}

/// The first `}` of `s` at or after `from`.
pub open spec fn close_index(s: Seq<char>, from: int) -> Option<int>
    decreases s.len() - from,
{
    if from < 0 || from >= s.len() {
        None
    } else if s[from] == '}' {
        Some(from)
    } else {
        close_index(s, from + 1)
    }
}

/// Why a path could not be expanded.
pub enum ExpandError {
    /// The variable of that name is not set.
    Missing(Seq<char>),
    /// More than the allowed number of substitutions were needed.
    TooDeep,
}

/// `s` with its `${NAME}` references replaced by the values of `NAME` in
/// `env`: the first `${` and the first `}` after it are replaced by the
/// value, then the whole text is searched again from its start, until no
/// `${` is left or none is followed by `}`. Each substitution takes one of
/// `fuel`.
pub open spec fn expand(s: Seq<char>, env: Seq<(String, String)>, fuel: nat) -> Result<
    Seq<char>,
    ExpandError,
>
    decreases fuel,
{
    match first_open(s, 0) {
        None => Ok(s),
        Some(i) => match close_index(s, i + 2) {
            None => Ok(s),
            Some(j) => match env_lookup(env, s.subrange(i + 2, j)) {
                None => Err(ExpandError::Missing(s.subrange(i + 2, j))),
                Some(v) => if fuel == 0 {
                    Err(ExpandError::TooDeep)
                } else {
                    expand(
                        s.subrange(0, i) + v + s.subrange(j + 1, s.len() as int),
                        env,
                        (fuel - 1) as nat,
                    )
                },
            },
        },
    }
}

/// The expansion of path `s`, within the substitution budget.
pub open spec fn resolved(s: Seq<char>, env: Seq<(String, String)>) -> Result<Seq<char>, ExpandError> {
    expand(s, env, MAX_SUBSTITUTIONS as nat)
}

/// Whether `s` holds a `${` that some `}` follows.
pub open spec fn has_reference(s: Seq<char>) -> bool {
    exists|i: int, j: int|
        0 <= i && i + 2 <= j < s.len() && #[trigger] s[i] == '$' && s[i + 1] == '{' && #[trigger] s[j]
            == '}'
}

/// Whether a path result agrees with an expansion.
pub open spec fn agrees(r: Result<String, PlatformError>, e: Result<Seq<char>, ExpandError>) -> bool {
    match r {
        Ok(p) => e == Ok::<Seq<char>, ExpandError>(p@),
        Err(PlatformError::MissingVariable { name }) => e == Err::<Seq<char>, ExpandError>(
            ExpandError::Missing(name@),
        ),
        Err(PlatformError::TooManySubstitutions) => e == Err::<Seq<char>, ExpandError>(
            ExpandError::TooDeep,
        ),
        Err(PlatformError::MissingPlatform) => false,
    }
}

proof fn lemma_first_open(s: Seq<char>, from: int)
    requires
        0 <= from,
    ensures
        first_open(s, from) matches Some(i) ==> from <= i && i + 1 < s.len() && s[i] == '$' && s[i
            + 1] == '{',
        first_open(s, from) matches Some(i) ==> forall|k: int|
            from <= k < i ==> !(#[trigger] s[k] == '$' && s[k + 1] == '{'),
        first_open(s, from) is None ==> forall|k: int|
            from <= k && k + 1 < s.len() ==> !(#[trigger] s[k] == '$' && s[k + 1] == '{'),
    decreases s.len() - from,
{
    if from + 1 < s.len() && !(s[from] == '$' && s[from + 1] == '{') {
        lemma_first_open(s, from + 1);
    }
}

proof fn lemma_close_index(s: Seq<char>, from: int)
    requires
        0 <= from,
    ensures
        close_index(s, from) matches Some(j) ==> from <= j < s.len() && s[j] == '}',
        close_index(s, from) is None ==> forall|k: int| from <= k < s.len() ==> #[trigger] s[k] != '}',
    decreases s.len() - from,
{
    if from < s.len() && s[from] != '}' {
        lemma_close_index(s, from + 1);
    }
}

/// Expansion runs to its end: whatever it returns successfully holds no
/// `${` that a `}` follows.
pub proof fn lemma_expanded_has_no_reference(s: Seq<char>, env: Seq<(String, String)>, fuel: nat)
    ensures
        expand(s, env, fuel) matches Ok(r) ==> !has_reference(r),
    decreases fuel,
{
    lemma_first_open(s, 0);
    match first_open(s, 0) {
        None => {
            assert(!has_reference(s)) by {
                assert forall|i: int, j: int|
                    0 <= i && i + 2 <= j < s.len() && #[trigger] s[i] == '$' && s[i + 1] == '{'
                        implies #[trigger] s[j] != '}' by {
                    assert(!(s[i] == '$' && s[i + 1] == '{'));
                }
            }
        },
        Some(i) => {
            lemma_close_index(s, i + 2);
            match close_index(s, i + 2) {
                None => {
                    assert(!has_reference(s)) by {
                        assert forall|a: int, b: int|
                            0 <= a && a + 2 <= b < s.len() && #[trigger] s[a] == '$' && s[a + 1]
                                == '{' implies #[trigger] s[b] != '}' by {
                            if a < i {
                                assert(!(s[a] == '$' && s[a + 1] == '{'));
                            }
                        }
                    }
                },
                Some(j) => {
                    if let Some(v) = env_lookup(env, s.subrange(i + 2, j)) {
                        if fuel > 0 {
                            lemma_expanded_has_no_reference(
                                s.subrange(0, i) + v + s.subrange(j + 1, s.len() as int),
                                env,
                                (fuel - 1) as nat,
                            );
                        }
                    }
                },
            }
        },
    }
}

fn lookup<'a>(env: &'a Vec<(String, String)>, name: &Vec<char>) -> (r: Option<&'a String>)
    ensures
        r matches Some(v) ==> env_lookup(env@, name@) == Some(v@),
        r is None ==> env_lookup(env@, name@) is None,
{
    let mut i: usize = 0;
    assert(env@.subrange(0, env@.len() as int) == env@);
    while i < env.len()
        invariant
            i <= env@.len(),
            env_lookup(env@, name@) == env_lookup(env@.subrange(i as int, env@.len() as int), name@),
        decreases env@.len() - i,
    {
        let k = chars_of(env[i].0.as_str());
        let ghost rest = env@.subrange(i as int, env@.len() as int);
        assert(rest[0] == env@[i as int]);
        if k.len() == name.len() && crate::text::starts_with(&k, name) {
            assert(k@ == name@) by {
                assert(k@.subrange(0, name@.len() as int) == k@);
            }
            return Some(&env[i].1);
        }
        proof {
            if k@ == name@ {
                assert(k@.subrange(0, name@.len() as int) == k@);
            }
            assert(rest.subrange(1, rest.len() as int) == env@.subrange(i + 1, env@.len() as int));
        }
        i = i + 1;
    }
    None
}

fn find_open(s: &Vec<char>) -> (r: Option<usize>)
    ensures
        r matches Some(i) ==> first_open(s@, 0) == Some(i as int),
        r is None ==> first_open(s@, 0) is None,
{
    let mut k: usize = 0;
    while s.len() > 1 && k < s.len() - 1
        invariant
            k <= s@.len(),
            first_open(s@, 0) == first_open(s@, k as int),
        decreases s@.len() - k,
    {
        if s[k] == '$' && s[k + 1] == '{' {
            return Some(k);
        }
        k = k + 1;
    }
    None
}

fn find_close(s: &Vec<char>, from: usize) -> (r: Option<usize>)
    ensures
        r matches Some(j) ==> close_index(s@, from as int) == Some(j as int) && j < s@.len(),
        r is None ==> close_index(s@, from as int) is None,
{
    let mut k: usize = from;
    while k < s.len() && s[k] != '}'
        invariant
            from <= k,
            close_index(s@, from as int) == close_index(s@, k as int),
        decreases s@.len() - k,
    {
        k = k + 1;
    }
    if k < s.len() {
        Some(k)
    } else {
        None
    }
}

/// `s[..i]`, then `v`, then `s[j + 1..]`.
fn splice(s: &Vec<char>, i: usize, j: usize, v: &Vec<char>) -> (r: Vec<char>)
    requires
        i <= j < s@.len(),
    ensures
        r@ == s@.subrange(0, i as int) + v@ + s@.subrange(j + 1, s@.len() as int),
{
    let mut r: Vec<char> = Vec::new();
    let mut k: usize = 0;
    while k < i
        invariant
            k <= i <= j < s@.len(),
            r@ == s@.subrange(0, k as int),
        decreases i - k,
    {
        r.push(s[k]);
        k = k + 1;
    }
    let mut m: usize = 0;
    while m < v.len()
        invariant
            i <= j < s.len(),
            m <= v@.len(),
            r@ == s@.subrange(0, i as int) + v@.subrange(0, m as int),
        decreases v@.len() - m,
    {
        r.push(v[m]);
        m = m + 1;
    }
    assert(v@.subrange(0, v@.len() as int) == v@);
    let mut k: usize = j + 1;
    while k < s.len()
        invariant
            i <= j < s@.len(),
            j + 1 <= k <= s@.len(),
            r@ == s@.subrange(0, i as int) + v@ + s@.subrange(j + 1, k as int),
        decreases s@.len() - k,
    {
        r.push(s[k]);
        k = k + 1;
    }
    r
}

/// Expands the `${NAME}` references of paths against an environment snapshot.
pub struct PathResolver;

impl PathResolver {
    /// `path` with its `${NAME}` references replaced by their values in
    /// `env`, searching again from the start after each substitution.
    pub fn resolve(path: &str, env: &Vec<(String, String)>) -> (r: Result<String, PlatformError>)
        ensures
            agrees(r, resolved(path@, env@)),
    {
        let mut cur = chars_of(path);
        let mut fuel: usize = MAX_SUBSTITUTIONS;
        loop
            invariant
                fuel <= MAX_SUBSTITUTIONS,
                resolved(path@, env@) == expand(cur@, env@, fuel as nat),
            decreases fuel,
        {
            let i = match find_open(&cur) {
                None => {
                    assert(cur@.subrange(0, cur@.len() as int) == cur@);
                    return Ok(string_of(&cur, 0, cur.len()));
                },
                Some(i) => i,
            };
            proof {
                lemma_first_open(cur@, 0);
            }
            let j = match find_close(&cur, i + 2) {
                None => {
                    assert(cur@.subrange(0, cur@.len() as int) == cur@);
                    return Ok(string_of(&cur, 0, cur.len()));
                },
                Some(j) => j,
            };
            proof {
                lemma_close_index(cur@, i + 2);
            }
            let name = string_of(&cur, i + 2, j);
            let name_chars = chars_of(name.as_str());
            match lookup(env, &name_chars) {
                None => {
                    return Err(PlatformError::MissingVariable { name });
                },
                Some(value) => {
                    if fuel == 0 {
                        return Err(PlatformError::TooManySubstitutions);
                    }
                    let v = chars_of(value.as_str());
                    cur = splice(&cur, i, j, &v);
                    fuel = fuel - 1;
                },
            }
        }
    }
}

/// `dir` and `name` joined by one `/`.
pub open spec fn joined(dir: Seq<char>, name: Seq<char>) -> Seq<char> {
    if dir.len() == 0 || dir.last() == '/' {
        dir + name
    } else {
        dir + seq!['/'] + name
    }
}

pub fn join_path(dir: &str, name: &str) -> (r: String)
    ensures
        r@ == joined(dir@, name@),
{
    let mut r = String::from_str(dir);
    let n = dir.unicode_len();
    if n > 0 && dir.get_char(n - 1) != '/' {
        push_char(&mut r, '/');
    }
    r.append(name);
    r
}

/// Where the engine binary is looked for, in order: each system path, then
/// `binary` in the application directory, then in its `resources`
/// subdirectory. The first that exists is started.
pub fn engine_candidates(system_paths: &Vec<String>, app_dir: &str, binary: &str) -> (r: Vec<String>)
    requires
        system_paths@.len() + 2 <= usize::MAX,
    ensures
        r@.len() == system_paths@.len() + 2,
        forall|i: int| 0 <= i < system_paths@.len() ==> #[trigger] r@[i]@ == system_paths@[i]@,
        r@[system_paths@.len() as int]@ == joined(app_dir@, binary@),
        r@[system_paths@.len() + 1int]@ == joined(joined(app_dir@, "resources"@), binary@),
{
    let mut r: Vec<String> = Vec::new();
    let mut i: usize = 0;
    while i < system_paths.len()
        invariant
            i <= system_paths@.len(),
            r@.len() == i,
            forall|k: int| 0 <= k < i ==> #[trigger] r@[k]@ == system_paths@[k]@,
        decreases system_paths@.len() - i,
    {
        r.push(system_paths[i].clone());
        i = i + 1;
    }
    r.push(join_path(app_dir, binary));
    let resources = join_path(app_dir, "resources");
    r.push(join_path(resources.as_str(), binary));
    r
}

/// The directories and files of the application, from the platform
/// configuration, the operating system and the environment.
pub struct PlatformPaths {
    pub config: PlatformConfig,
    pub os: Os,
    pub env: Vec<(String, String)>,
}

/// What a path taken from the current settings resolves to.
pub open spec fn setting_agrees(
    r: Result<String, PlatformError>,
    c: PlatformConfig,
    os: Os,
    env: Seq<(String, String)>,
    field: spec_fn(PlatformSettings) -> String,
) -> bool {
    match settings_for(c, os) {
        None => r matches Err(e) && e is MissingPlatform,
        Some(s) => agrees(r, resolved(field(s)@, env)),
    }
}

impl PlatformPaths {
    /// The configuration directory.
    pub fn config_dir(&self) -> (r: Result<String, PlatformError>)
        ensures
            setting_agrees(r, self.config, self.os, self.env@, |s: PlatformSettings| s.config_dir),
    {
        let platform = self.config.current_platform(self.os)?;
        PathResolver::resolve(platform.config_dir.as_str(), &self.env)
    }

    /// The configuration file: the configuration directory joined with the
    /// common file name.
    pub fn config_file(&self) -> (r: Result<String, PlatformError>)
        ensures
            r matches Ok(p) ==> settings_for(self.config, self.os) matches Some(s) && resolved(
                s.config_dir@,
                self.env@,
            ) matches Ok(d) && p@ == joined(d, self.config.common.config_filename@),
            r is Err ==> setting_agrees(r, self.config, self.os, self.env@, |s: PlatformSettings| s.config_dir),
    {
        let dir = self.config_dir()?;
        Ok(join_path(dir.as_str(), self.config.common.config_filename.as_str()))
    }

    /// The backup directory.
    pub fn backup_dir(&self) -> (r: Result<String, PlatformError>)
        ensures
            setting_agrees(r, self.config, self.os, self.env@, |s: PlatformSettings| s.backup_dir),
    {
        let platform = self.config.current_platform(self.os)?;
        PathResolver::resolve(platform.backup_dir.as_str(), &self.env)
    }

    /// The log directory.
    pub fn log_dir(&self) -> (r: Result<String, PlatformError>)
        ensures
            setting_agrees(r, self.config, self.os, self.env@, |s: PlatformSettings| s.log_dir),
    {
        let platform = self.config.current_platform(self.os)?;
        PathResolver::resolve(platform.log_dir.as_str(), &self.env)
    }

    /// The system paths searched for the engine, each resolved; the first
    /// that fails to resolve gives the error.
    pub fn system_paths(&self) -> (r: Result<Vec<String>, PlatformError>)
        ensures
            r is Err ==> settings_for(self.config, self.os) is None || exists|i: int|
                0 <= i < settings_for(self.config, self.os)->0.system_paths@.len() && resolved(
                    settings_for(self.config, self.os)->0.system_paths@[i]@,
                    self.env@,
                ) is Err,
            r matches Err(e) && e is MissingPlatform ==> settings_for(self.config, self.os) is None,
            r matches Ok(ps) ==> settings_for(self.config, self.os) matches Some(s) && ps@.len()
                == s.system_paths@.len() && forall|i: int|
                0 <= i < ps@.len() ==> resolved(s.system_paths@[i]@, self.env@) == Ok::<
                    Seq<char>,
                    ExpandError,
                >(ps@[i]@),
    {
        let platform = self.config.current_platform(self.os)?;
        let mut out: Vec<String> = Vec::new();
        let mut i: usize = 0;
        while i < platform.system_paths.len()
            invariant
                settings_for(self.config, self.os) == Some(*platform),
                i <= platform.system_paths@.len(),
                out@.len() == i,
                forall|k: int|
                    0 <= k < i ==> resolved(platform.system_paths@[k]@, self.env@) == Ok::<
                        Seq<char>,
                        ExpandError,
                    >(out@[k]@),
            decreases platform.system_paths@.len() - i,
        {
            let p = PathResolver::resolve(platform.system_paths[i].as_str(), &self.env)?;
            out.push(p);
            i = i + 1;
        }
        Ok(out)
    }
}

/// The configuration file's path: `config.yaml` in the configuration directory.
pub fn get_config_path(paths: &PlatformPaths) -> (r: Result<String, PlatformError>)
    ensures
        r matches Ok(p) ==> settings_for(paths.config, paths.os) matches Some(s) && resolved(
            s.config_dir@,
            paths.env@,
        ) matches Ok(d) && p@ == joined(d, "config.yaml"@),
        r is Err ==> setting_agrees(r, paths.config, paths.os, paths.env@, |s: PlatformSettings| s.config_dir),
{
    let dir = paths.config_dir()?;
    Ok(join_path(dir.as_str(), "config.yaml"))
}

} // verus!
