//! The runtime configuration that an image configuration calls for: the
//! annotations copied from the image's metadata and labels, and the process
//! to launch (working directory, arguments, environment and user).
use crate::user::{has_two_colons, no_colon, resolve_user_ids, u32_of, UserError, UserIds};
use vstd::prelude::*;
use vstd::string::StringExecFns;

verus! {

/// The execution block of an image configuration.
pub struct ExecConfig {
    pub working_dir: Option<String>,
    pub entrypoint: Option<Vec<String>>,
    pub cmd: Option<Vec<String>>,
    pub env: Option<Vec<String>>,
    /// `<user>` or `<user>:<group>`, as UTF-8 bytes.
    pub user: Option<Vec<u8>>,
    pub stop_signal: Option<String>,
    pub labels: Option<Vec<(String, String)>>,
}

/// The parts of an image configuration that the runtime configuration uses.
pub struct ImageConfig {
    pub os: String,
    pub architecture: String,
    pub variant: Option<String>,
    pub os_version: Option<String>,
    pub os_features: Option<Vec<String>>,
    pub author: Option<String>,
    pub created: Option<String>,
    pub config: Option<ExecConfig>,
}

/// The process of a runtime configuration; `None` leaves a field at the
/// runtime's default.
#[derive(Debug)]
pub struct ProcessConfig {
    pub cwd: Option<String>,
    pub args: Option<Vec<String>>,
    pub env: Option<Vec<String>>,
    pub user: Option<UserIds>,
}

/// A runtime configuration: annotations with distinct keys, and the process.
#[derive(Debug)]
pub struct RuntimeConfig {
    pub annotations: Vec<(String, String)>,
    pub process: Option<ProcessConfig>,
}

/// The texts of a sequence of strings.
pub open spec fn strs(v: Seq<String>) -> Seq<Seq<char>> {
    v.map_values(|s: String| s@)
}

/// The text of an optional string.
pub open spec fn opt_str(o: Option<String>) -> Option<Seq<char>> {
    match o {
        Some(s) => Some(s@),
        None => None,
    }
}

/// The texts of an optional sequence of strings.
pub open spec fn opt_strs(o: Option<Vec<String>>) -> Option<Seq<Seq<char>>> {
    match o {
        Some(v) => Some(strs(v@)),
        None => None,
    }
}

/// The arguments made of an entrypoint and a command: either alone, or the
/// entrypoint followed by the command; none when both are absent.
pub open spec fn args_of(
    entrypoint: Option<Seq<Seq<char>>>,
    cmd: Option<Seq<Seq<char>>>,
) -> Option<Seq<Seq<char>>> {
    match (entrypoint, cmd) {
        (None, None) => None,
        (None, Some(c)) => Some(c),
        (Some(e), None) => Some(e),
        (Some(e), Some(c)) => Some(e + c),
    }
}

/// The strings of `v` joined by commas.
pub open spec fn comma_joined(v: Seq<Seq<char>>) -> Seq<char>
    decreases v.len(),
{
    if v.len() == 0 {
        Seq::empty()
    } else if v.len() == 1 {
        v[0]
    } else {
        comma_joined(v.drop_last()) + seq![','] + v.last()
    }
}

/// `m` after writing each pair of `s` in order, a later write of a key
/// replacing an earlier one.
pub open spec fn write_pairs(m: Map<Seq<char>, Seq<char>>, s: Seq<(String, String)>) -> Map<
    Seq<char>,
    Seq<char>,
>
    decreases s.len(),
{
    if s.len() == 0 {
        m
    } else {
        write_pairs(m, s.drop_last()).insert(s.last().0@, s.last().1@)
    }
}

/// The map that a list of pairs stands for.
pub open spec fn pairs_map(s: Seq<(String, String)>) -> Map<Seq<char>, Seq<char>> {
    write_pairs(Map::empty(), s)
}

/// No key appears twice.
pub open spec fn keys_unique(s: Seq<(String, String)>) -> bool {
    forall|i: int, j: int| 0 <= i < j < s.len() ==> #[trigger] s[i].0@ != #[trigger] s[j].0@
}

/// `m` with `k` written when `v` is present.
pub open spec fn put(m: Map<Seq<char>, Seq<char>>, k: Seq<char>, v: Option<String>) -> Map<
    Seq<char>,
    Seq<char>,
> {
    match v {
        Some(s) => m.insert(k, s@),
        None => m,
    }
}

/// The annotations taken from the image's metadata, before its labels.
pub open spec fn metadata_annotations(c: ImageConfig) -> Map<Seq<char>, Seq<char>> {
    let m = Map::empty().insert("org.opencontainers.image.os"@, c.os@).insert(
        "org.opencontainers.image.architecture"@,
        c.architecture@,
    );
    let m = put(m, "org.opencontainers.image.variant"@, c.variant);
    let m = put(m, "org.opencontainers.image.os.version"@, c.os_version);
    let m = match c.os_features {
        Some(f) => m.insert("org.opencontainers.image.os.features"@, comma_joined(strs(f@))),
        None => m,
    };
    let m = put(m, "org.opencontainers.image.author"@, c.author);
    let m = put(m, "org.opencontainers.image.created"@, c.created);
    match c.config {
        Some(e) => put(m, "org.opencontainers.image.stopSignal"@, e.stop_signal),
        None => m,
    }
}

/// All annotations: the metadata ones, then the labels, which win.
pub open spec fn annotations_of(c: ImageConfig) -> Map<Seq<char>, Seq<char>> {
    match c.config {
        Some(e) => match e.labels {
            Some(l) => write_pairs(metadata_annotations(c), l@),
            None => metadata_annotations(c),
        },
        None => metadata_annotations(c),
    }
}

/// The process fields that come from the execution block alone.
pub open spec fn process_from(p: ProcessConfig, e: ExecConfig) -> bool {
    &&& opt_str(p.cwd) == opt_str(e.working_dir)
    &&& opt_strs(p.args) == args_of(opt_strs(e.entrypoint), opt_strs(e.cmd))
    &&& opt_strs(p.env) == opt_strs(e.env)
}

/// A copy of an optional string.
fn clone_opt(o: &Option<String>) -> (r: Option<String>)
    ensures
        opt_str(r) == opt_str(*o),
{
    match o {
        Some(s) => Some(s.clone()),
        None => None,
    }
}

/// `a` followed by `b`, the strings copied.
fn concat_strings(a: &Vec<String>, b: &Vec<String>) -> (r: Vec<String>)
    ensures
        r@ == a@ + b@,
        strs(r@) == strs(a@) + strs(b@),
{
    let mut r: Vec<String> = Vec::new();
    let mut i: usize = 0;
    while i < a.len()
        invariant
            i <= a@.len(),
            r@ =~= a@.subrange(0, i as int),
        decreases a@.len() - i,
    {
        r.push(a[i].clone());
        i += 1;
    }
    let mut k: usize = 0;
    while k < b.len()
        invariant
            k <= b@.len(),
            r@ =~= a@ + b@.subrange(0, k as int),
        decreases b@.len() - k,
    {
        r.push(b[k].clone());
        k += 1;
    }
    assert(r@ =~= a@ + b@);
    assert(strs(a@ + b@) =~= strs(a@) + strs(b@));
    r
}

/// A copy of an optional sequence of strings.
fn clone_strings_opt(o: &Option<Vec<String>>) -> (r: Option<Vec<String>>)
    ensures
        opt_strs(r) == opt_strs(*o),
{
    match o {
        Some(v) => {
            let e: Vec<String> = Vec::new();
            let c = concat_strings(v, &e);
            assert(strs(e@) =~= Seq::<Seq<char>>::empty());
            assert(strs(v@) + strs(e@) =~= strs(v@));
            Some(c)
        },
        None => None,
    }
}

/// The arguments of the process: entrypoint and command per [`args_of`].
pub fn process_args(entrypoint: &Option<Vec<String>>, cmd: &Option<Vec<String>>) -> (r: Option<
    Vec<String>,
>)
    ensures
        opt_strs(r) == args_of(opt_strs(*entrypoint), opt_strs(*cmd)),
{
    match (entrypoint, cmd) {
        (None, None) => None,
        (None, Some(_)) => clone_strings_opt(cmd),
        (Some(_), None) => clone_strings_opt(entrypoint),
        (Some(e), Some(c)) => Some(concat_strings(e, c)),
    }
}

/// The strings of `v` joined by commas.
pub fn join_commas(v: &Vec<String>) -> (r: String)
    ensures
        r@ == comma_joined(strs(v@)),
{
    let mut r = String::new();
    let mut i: usize = 0;
    while i < v.len()
        invariant
            i <= v@.len(),
            r@ == comma_joined(strs(v@.subrange(0, i as int))),
        decreases v@.len() - i,
    {
        let ghost before = strs(v@.subrange(0, i as int));
        assert(strs(v@.subrange(0, i + 1)).drop_last() =~= before);
        assert(strs(v@.subrange(0, i + 1)).last() == v@[i as int]@);
        proof {
            reveal_strlit(",");
        }
        if i > 0 {
            r.append(",");
        }
        r.append(v[i].as_str());
        proof {
            if i == 0 {
                assert(r@ =~= strs(v@.subrange(0, 1))[0]);
            }
        }
        i += 1;
    }
    assert(v@.subrange(0, v@.len() as int) =~= v@);
    r
}

/// Writing a key in place of its one earlier pair is writing it last.
proof fn lemma_write_replaces(m: Map<Seq<char>, Seq<char>>, s: Seq<(String, String)>, i: int, p: (
    String,
    String,
))
    requires
        0 <= i < s.len(),
        keys_unique(s),
        s[i].0@ == p.0@,
    ensures
        write_pairs(m, s.update(i, p)) == write_pairs(m, s).insert(p.0@, p.1@),
    decreases s.len(),
{
    let t = s.update(i, p);
    if i == s.len() - 1 {
        assert(t.drop_last() =~= s.drop_last());
        assert(write_pairs(m, t) =~= write_pairs(m, s).insert(p.0@, p.1@));
    } else {
        assert(t.drop_last() =~= s.drop_last().update(i, p));
        lemma_write_replaces(m, s.drop_last(), i, p);
        assert(s[i].0@ != s.last().0@);
        assert(write_pairs(m, t) =~= write_pairs(m, s).insert(p.0@, p.1@));
    }
}

/// Writes `value` under `key`, replacing what the key held.
fn set_annotation(a: &mut Vec<(String, String)>, key: String, value: String)
    requires
        keys_unique(old(a)@),
    ensures
        keys_unique(final(a)@),
        pairs_map(final(a)@) == pairs_map(old(a)@).insert(key@, value@),
{
    let mut i: usize = 0;
    while i < a.len()
        invariant
            i <= a@.len(),
            a@ == old(a)@,
            keys_unique(a@),
            forall|j: int| 0 <= j < i ==> #[trigger] a@[j].0@ != key@,
        decreases a@.len() - i,
    {
        if a[i].0 == key {
            let ghost before = a@;
            proof {
                lemma_write_replaces(Map::empty(), before, i as int, (key, value));
            }
            a.set(i, (key, value));
            assert(a@ == before.update(i as int, (key, value)));
            return;
        }
        i += 1;
    }
    let ghost before = a@;
    a.push((key, value));
    assert(a@.drop_last() =~= before);
}

/// Writes the metadata annotation `key` when `value` is present.
fn put_annotation(a: &mut Vec<(String, String)>, key: &str, value: &Option<String>)
    requires
        keys_unique(old(a)@),
    ensures
        keys_unique(final(a)@),
        pairs_map(final(a)@) == put(pairs_map(old(a)@), key@, *value),
{
    match value {
        Some(v) => set_annotation(a, String::from_str(key), v.clone()),
        None => {},
    }
}

/// The annotations of the runtime configuration.
pub fn runtime_annotations(c: &ImageConfig) -> (r: Vec<(String, String)>)
    ensures
        keys_unique(r@),
        pairs_map(r@) == annotations_of(*c),
{
    let mut a: Vec<(String, String)> = Vec::new();
    set_annotation(&mut a, String::from_str("org.opencontainers.image.os"), c.os.clone());
    set_annotation(
        &mut a,
        String::from_str("org.opencontainers.image.architecture"),
        c.architecture.clone(),
    );
    put_annotation(&mut a, "org.opencontainers.image.variant", &c.variant);
    put_annotation(&mut a, "org.opencontainers.image.os.version", &c.os_version);
    match &c.os_features {
        Some(f) => set_annotation(
            &mut a,
            String::from_str("org.opencontainers.image.os.features"),
            join_commas(f),
        ),
        None => {},
    }
    put_annotation(&mut a, "org.opencontainers.image.author", &c.author);
    put_annotation(&mut a, "org.opencontainers.image.created", &c.created);
    match &c.config {
        Some(e) => {
            put_annotation(&mut a, "org.opencontainers.image.stopSignal", &e.stop_signal);
            match &e.labels {
                Some(l) => {
                    let ghost base = pairs_map(a@);
                    let mut i: usize = 0;
                    while i < l.len()
                        invariant
                            i <= l@.len(),
                            keys_unique(a@),
                            pairs_map(a@) == write_pairs(base, l@.subrange(0, i as int)),
                        decreases l@.len() - i,
                    {
                        assert(l@.subrange(0, i + 1).drop_last() =~= l@.subrange(0, i as int));
                        set_annotation(&mut a, l[i].0.clone(), l[i].1.clone());
                        i += 1;
                    }
                    assert(l@.subrange(0, l@.len() as int) =~= l@);
                },
                None => {},
            }
        },
        None => {},
    }
    a
}

/// The runtime configuration for `c`, with the process user already resolved.
pub fn runtime_config_with(c: &ImageConfig, user: Option<UserIds>) -> (r: RuntimeConfig)
    ensures
        keys_unique(r.annotations@),
        pairs_map(r.annotations@) == annotations_of(*c),
        r.process is Some <==> c.config is Some,
        c.config matches Some(e) ==> process_from(r.process->0, e) && r.process->0.user == user,
{
    let annotations = runtime_annotations(c);
    let process = match &c.config {
        Some(e) => Some(
            ProcessConfig {
                cwd: clone_opt(&e.working_dir),
                args: process_args(&e.entrypoint, &e.cmd),
                env: clone_strings_opt(&e.env),
                user,
            },
        ),
        None => None,
    };
    RuntimeConfig { annotations, process }
}

/// The runtime configuration for `c`. The process user, when the image names
/// one, is looked up on the host; a failed lookup or a malformed user string
/// is the error.
pub fn create_runtime_config(c: &ImageConfig) -> (r: Result<RuntimeConfig, UserError>)
    ensures
        r is Err ==> (c.config matches Some(e) && e.user is Some),
        (c.config matches Some(e) && e.user matches Some(u) && has_two_colons(u@)) <==> r matches Err(
            UserError::InvalidFormat,
        ),
        r matches Ok(rc) ==> (c.config matches Some(e) ==> (e.user matches Some(u) ==> (no_colon(
            u@) ==> (u32_of(u@) matches Some(n) ==> rc.process->0.user->0.uid == n)))),
        r matches Ok(rc) ==> {
            &&& keys_unique(rc.annotations@)
            &&& pairs_map(rc.annotations@) == annotations_of(*c)
            &&& (rc.process is Some <==> c.config is Some)
            &&& (c.config matches Some(e) ==> process_from(rc.process->0, e) && (rc.process->0.user
                is Some <==> e.user is Some))
        },
{
    let user = match &c.config {
        Some(e) => match &e.user {
            Some(u) => Some(resolve_user_ids(u.as_slice())?),
            None => None,
        },
        None => None,
    };
    Ok(runtime_config_with(c, user))
}

} // verus!
