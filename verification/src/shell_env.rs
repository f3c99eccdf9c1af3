use vstd::prelude::*;
use vstd::string::StrSliceExecFns;
use vstd::string::StringExecFns;

verus! {

/// The environment-dependent inputs that shape a newly created session: the
/// shell override, the inherited variables, and the two probes used to seed
/// the package-manager variables. All are read by the caller, outside this
/// library, and handed in as plain values.
pub struct SessionConfig {
    /// Value of the variable naming the interactive shell, if set.
    pub shell_override: Option<String>,
    /// Inherited PATH, if set.
    pub path: Option<String>,
    /// Inherited HOME, if set.
    pub home: Option<String>,
    /// Inherited USER, if set.
    pub user: Option<String>,
    /// Inherited LANG, if set.
    pub lang: Option<String>,
    /// Whether HOMEBREW_PREFIX is already set in the inherited environment.
    pub homebrew_prefix_set: bool,
    /// Whether the /opt/homebrew install root exists on this machine.
    pub homebrew_root_exists: bool,
}

/// The view of a vector of strings: each as its character sequence.
pub open spec fn strings_view(v: Seq<String>) -> Seq<Seq<char>>
    decreases v.len(),
{
    if v.len() == 0 {
        Seq::empty()
    } else {
        strings_view(v.drop_last()).push(v.last()@)
    }
}

/// The view of a vector of environment pairs: each key and value as its
/// character sequence.
pub open spec fn pairs_view(v: Seq<(String, String)>) -> Seq<(Seq<char>, Seq<char>)>
    decreases v.len(),
{
    if v.len() == 0 {
        Seq::empty()
    } else {
        pairs_view(v.drop_last()).push((v.last().0@, v.last().1@))
    }
}

pub proof fn lemma_strings_view_props(v: Seq<String>)
    ensures
        strings_view(v).len() == v.len(),
        forall|i: int| 0 <= i < v.len() ==> strings_view(v)[i] == v[i]@,
    decreases v.len(),
{
    if v.len() > 0 {
        lemma_strings_view_props(v.drop_last());
        assert forall|i: int| 0 <= i < v.len() implies strings_view(v)[i] == v[i]@ by {
            if i < v.len() - 1 {
                assert(v.drop_last()[i] == v[i]);
            }
        }
    }
}

pub proof fn lemma_pairs_view_props(v: Seq<(String, String)>)
    ensures
        pairs_view(v).len() == v.len(),
        forall|i: int| 0 <= i < v.len() ==> pairs_view(v)[i] == (v[i].0@, v[i].1@),
    decreases v.len(),
{
    if v.len() > 0 {
        lemma_pairs_view_props(v.drop_last());
        assert forall|i: int| 0 <= i < v.len() implies pairs_view(v)[i] == (v[i].0@, v[i].1@) by {
            if i < v.len() - 1 {
                assert(v.drop_last()[i] == v[i]);
            }
        }
    }
}

/// Whether a component holds no separator.
pub open spec fn colon_free(part: Seq<char>) -> bool {
    forall|i: int| 0 <= i < part.len() ==> part[i] != ':'
}

/// One step of splitting: a separator opens a new empty component, any other
/// character extends the last one.
pub open spec fn split_push(acc: Seq<Seq<char>>, c: char) -> Seq<Seq<char>>
    recommends
        acc.len() >= 1,
{
    if c == ':' {
        acc.push(Seq::empty())
    } else {
        acc.update(acc.len() - 1, acc.last().push(c))
    }
}

/// The components of a string split on the separator, left to right. The
/// empty string has one empty component; a trailing separator leaves one
/// empty component at the end.
pub open spec fn split_colon_spec(s: Seq<char>) -> Seq<Seq<char>>
    decreases s.len(),
{
    if s.len() == 0 {
        seq![Seq::<char>::empty()]
    } else {
        split_push(split_colon_spec(s.drop_last()), s.last())
    }
}

/// Components joined back with the separator between them.
pub open spec fn join_colon(parts: Seq<Seq<char>>) -> Seq<char>
    decreases parts.len(),
{
    if parts.len() == 0 {
        Seq::empty()
    } else if parts.len() == 1 {
        parts[0]
    } else {
        join_colon(parts.drop_last()) + seq![':'] + parts.last()
    }
}

pub proof fn lemma_split_colon_len(s: Seq<char>)
    ensures
        split_colon_spec(s).len() >= 1,
    decreases s.len(),
{
    if s.len() > 0 {
        lemma_split_colon_len(s.drop_last());
    }
}

/// Splitting and joining are inverse: the components of a string, joined back
/// with the separator, give the string itself.
pub proof fn lemma_join_of_split(s: Seq<char>)
    ensures
        join_colon(split_colon_spec(s)) == s,
    decreases s.len(),
{
    if s.len() == 0 {
        assert(join_colon(split_colon_spec(s)) =~= s);
    } else {
        let prev = split_colon_spec(s.drop_last());
        lemma_split_colon_len(s.drop_last());
        lemma_join_of_split(s.drop_last());
        let c = s.last();
        if c == ':' {
            assert(prev.push(Seq::<char>::empty()).drop_last() =~= prev);
            assert(join_colon(split_colon_spec(s)) =~= s);
        } else {
            let upd = prev.update(prev.len() - 1, prev.last().push(c));
            if prev.len() == 1 {
                assert(upd[0] == prev[0].push(c));
                assert(join_colon(upd) =~= s);
            } else {
                assert(upd.drop_last() =~= prev.drop_last());
                assert(upd.last() == prev.last().push(c));
                assert(join_colon(upd) =~= join_colon(prev).push(c));
                assert(join_colon(prev).push(c) =~= s);
            }
        }
    }
}

/// Every component a split yields is free of the separator; with the joining
/// lemma this pins the splitting down completely.
pub proof fn lemma_split_components_colon_free(s: Seq<char>)
    ensures
        forall|i: int|
            0 <= i < split_colon_spec(s).len() ==> colon_free(#[trigger] split_colon_spec(s)[i]),
    decreases s.len(),
{
    if s.len() == 0 {
        assert(colon_free(Seq::<char>::empty()));
    } else {
        lemma_split_components_colon_free(s.drop_last());
        lemma_split_colon_len(s.drop_last());
        let prev = split_colon_spec(s.drop_last());
        let c = s.last();
        if c == ':' {
            assert forall|i: int|
                0 <= i < split_colon_spec(s).len() implies colon_free(
                #[trigger] split_colon_spec(s)[i],
            ) by {
                if i < prev.len() {
                    assert(split_colon_spec(s)[i] == prev[i]);
                } else {
                    assert(split_colon_spec(s)[i] =~= Seq::<char>::empty());
                }
            }
        } else {
            assert forall|i: int|
                0 <= i < split_colon_spec(s).len() implies colon_free(
                #[trigger] split_colon_spec(s)[i],
            ) by {
                if i == prev.len() - 1 {
                    assert(colon_free(prev.last()));
                    assert(split_colon_spec(s)[i] == prev.last().push(c));
                    assert forall|j: int|
                        0 <= j < prev.last().push(c).len() implies prev.last().push(c)[j]
                        != ':' by {
                        if j < prev.last().len() {
                            assert(prev.last()[j] != ':');
                        }
                    }
                } else {
                    assert(split_colon_spec(s)[i] == prev[i]);
                }
            }
        }
    }
}

/// Split a string on the separator. Always yields at least one component.
pub fn split_colon(s: &str) -> (parts: Vec<String>)
    ensures
        parts@.len() >= 1,
        strings_view(parts@) == split_colon_spec(s@),
{
    let n: usize = s.unicode_len();
    let mut parts: Vec<String> = Vec::new();
    let mut start: usize = 0;
    let mut i: usize = 0;
    proof {
        assert(s@.subrange(0, 0) =~= Seq::<char>::empty());
        assert(strings_view(parts@).push(s@.subrange(0, 0)) =~= split_colon_spec(s@.take(0)));
    }
    while i < n
        invariant
            n == s@.len(),
            start <= i <= n,
            strings_view(parts@).push(s@.subrange(start as int, i as int)) == split_colon_spec(
                s@.take(i as int),
            ),
        decreases n - i,
    {
        let ghost pv0 = strings_view(parts@);
        let ghost cur0 = s@.subrange(start as int, i as int);
        proof {
            assert(s@.take(i + 1).drop_last() =~= s@.take(i as int));
            assert(s@.take(i + 1).last() == s@[i as int]);
        }
        let c = s.get_char(i);
        proof {
            assert(split_colon_spec(s@.take(i + 1)) == split_push(
                split_colon_spec(s@.take(i as int)),
                s@[i as int],
            ));
        }
        if c == ':' {
            let piece = s.substring_char(start, i).to_owned();
            let ghost pparts0 = parts@;
            parts.push(piece);
            start = i + 1;
            proof {
                assert(parts@.drop_last() =~= pparts0);
                assert(strings_view(parts@) == pv0.push(cur0));
                assert(s@.subrange(start as int, i + 1) =~= Seq::<char>::empty());
                assert(strings_view(parts@).push(s@.subrange(start as int, i + 1)) =~= split_push(
                    split_colon_spec(s@.take(i as int)),
                    c,
                ));
            }
        } else {
            proof {
                assert(s@.subrange(start as int, i + 1) =~= cur0.push(c));
                assert(pv0.push(cur0).update(pv0.push(cur0).len() - 1, cur0.push(c)) =~= pv0.push(
                    cur0.push(c),
                ));
                assert(strings_view(parts@).push(s@.subrange(start as int, i + 1)) =~= split_push(
                    split_colon_spec(s@.take(i as int)),
                    c,
                ));
            }
        }
        i = i + 1;
    }
    let ghost pvfin = strings_view(parts@);
    let ghost pold = parts@;
    let piece = s.substring_char(start, n).to_owned();
    parts.push(piece);
    proof {
        assert(s@.take(n as int) =~= s@);
        assert(parts@.drop_last() =~= pold);
        assert(strings_view(parts@) == pvfin.push(s@.subrange(start as int, n as int)));
        assert(strings_view(parts@) == split_colon_spec(s@));
    }
    parts
}

/// Join components with the separator.
pub fn join_parts(parts: &Vec<String>) -> (r: String)
    requires
        parts@.len() >= 1,
    ensures
        r@ == join_colon(strings_view(parts@)),
{
    proof {
        lemma_strings_view_props(parts@);
    }
    let mut r: String = parts[0].clone();
    let mut i: usize = 1;
    proof {
        assert(strings_view(parts@).take(1) =~= seq![parts@[0]@]);
    }
    while i < parts.len()
        invariant
            1 <= i <= parts@.len(),
            r@ == join_colon(strings_view(parts@).take(i as int)),
        decreases parts@.len() - i,
    {
        let ghost pv = strings_view(parts@);
        proof {
            lemma_strings_view_props(parts@);
            reveal_strlit(":");
            assert(pv.take(i + 1).drop_last() =~= pv.take(i as int));
            assert(pv.take(i + 1).last() == parts@[i as int]@);
        }
        r.append(":");
        r.append(parts[i].as_str());
        i = i + 1;
        proof {
            assert(r@ =~= join_colon(pv.take(i as int)));
        }
    }
    proof {
        assert(strings_view(parts@).take(parts@.len() as int) =~= strings_view(parts@));
    }
    r
}

/// String equality over views.
pub fn string_eq(a: &String, b: &String) -> (r: bool)
    ensures
        r == (a@ == b@),
{
    a.eq(b)
}

/// Whether one of the components equals the given one.
pub fn contains_string(parts: &Vec<String>, x: &String) -> (r: bool)
    ensures
        r == strings_view(parts@).contains(x@),
{
    let n: usize = parts.len();
    let mut i: usize = 0;
    while i < n
        invariant
            i <= n,
            n == parts@.len(),
            forall|j: int| 0 <= j < i ==> parts@[j]@ != x@,
        decreases n - i,
    {
        if string_eq(&parts[i], x) {
            proof {
                lemma_strings_view_props(parts@);
                assert(strings_view(parts@)[i as int] == x@);
            }
            return true;
        }
        i = i + 1;
    }
    proof {
        lemma_strings_view_props(parts@);
        assert forall|j: int| 0 <= j < strings_view(parts@).len() implies strings_view(parts@)[j]
            != x@ by {
            assert(parts@[j]@ != x@);
        }
    }
    false
}

/// The supplementary search-path directories, in the order they are tried.
pub open spec fn extra_path_dirs() -> Seq<Seq<char>> {
    seq!["/opt/homebrew/bin"@, "/opt/homebrew/sbin"@, "/usr/local/bin"@, "/usr/local/sbin"@]
}

/// Each extra directory not already among the components is pushed to the
/// front, in the order the extras are tried; so the last one tried ends up
/// first.
pub open spec fn prepend_missing(extras: Seq<Seq<char>>, parts: Seq<Seq<char>>) -> Seq<Seq<char>>
    decreases extras.len(),
{
    if extras.len() == 0 {
        parts
    } else {
        let next = if parts.contains(extras[0]) {
            parts
        } else {
            parts.insert(0, extras[0])
        };
        prepend_missing(extras.drop_first(), next)
    }
}

pub proof fn lemma_prepend_missing_len(extras: Seq<Seq<char>>, parts: Seq<Seq<char>>)
    ensures
        prepend_missing(extras, parts).len() >= parts.len(),
    decreases extras.len(),
{
    if extras.len() > 0 {
        if parts.contains(extras[0]) {
            lemma_prepend_missing_len(extras.drop_first(), parts);
        } else {
            lemma_prepend_missing_len(extras.drop_first(), parts.insert(0, extras[0]));
        }
    }
}

pub proof fn lemma_strings_view_insert_front(v: Seq<String>, x: String)
    ensures
        strings_view(v.insert(0, x)) == strings_view(v).insert(0, x@),
    decreases v.len(),
{
    if v.len() == 0 {
        assert(v.insert(0, x) =~= seq![x]);
        assert(strings_view(Seq::<String>::empty()) == Seq::<Seq<char>>::empty());
        assert(seq![x].drop_last() =~= Seq::<String>::empty());
        assert(strings_view(seq![x]) =~= seq![x@]);
        assert(strings_view(v) == Seq::<Seq<char>>::empty());
        assert(Seq::<Seq<char>>::empty().insert(0, x@) =~= seq![x@]);
        assert(strings_view(v.insert(0, x)) =~= strings_view(v).insert(0, x@));
    } else {
        lemma_strings_view_insert_front(v.drop_last(), x);
        assert(v.insert(0, x).drop_last() =~= v.drop_last().insert(0, x));
        assert(v.insert(0, x).last() == v.last());
        assert(strings_view(v.insert(0, x)) == strings_view(v.drop_last().insert(0, x)).push(
            v.last()@,
        ));
        assert(strings_view(v.drop_last()).insert(0, x@).push(v.last()@) =~= strings_view(v).insert(
            0,
            x@,
        ));
    }
}

/// The executable list of supplementary directories.
pub fn extra_paths() -> (v: Vec<String>)
    ensures
        strings_view(v@) == extra_path_dirs(),
{
    let mut v: Vec<String> = Vec::new();
    v.push("/opt/homebrew/bin".to_owned());
    v.push("/opt/homebrew/sbin".to_owned());
    v.push("/usr/local/bin".to_owned());
    v.push("/usr/local/sbin".to_owned());
    proof {
        lemma_strings_view_props(v@);
        assert(strings_view(v@) =~= extra_path_dirs());
    }
    v
}

/// Push each extra component that is missing to the front of the list, in
/// the order the extras come.
pub fn add_missing_front(parts: &mut Vec<String>, extras: &Vec<String>)
    ensures
        strings_view(final(parts)@) == prepend_missing(strings_view(extras@), strings_view(old(parts)@)),
{
    let n: usize = extras.len();
    let mut i: usize = 0;
    proof {
        assert(strings_view(extras@).skip(0) =~= strings_view(extras@));
    }
    while i < n
        invariant
            i <= n,
            n == extras@.len(),
            prepend_missing(strings_view(extras@).skip(i as int), strings_view(parts@))
                == prepend_missing(strings_view(extras@), strings_view(old(parts)@)),
        decreases n - i,
    {
        let ghost ev = strings_view(extras@);
        proof {
            lemma_strings_view_props(extras@);
            assert(ev.skip(i as int).drop_first() =~= ev.skip(i + 1));
            assert(ev.skip(i as int)[0] == extras@[i as int]@);
        }
        let e = &extras[i];
        if !contains_string(parts, e) {
            let ghost pold = parts@;
            parts.insert(0, e.clone());
            proof {
                lemma_strings_view_insert_front(pold, *e);
                assert(strings_view(parts@) == strings_view(pold).insert(0, extras@[i as int]@));
            }
        }
        i = i + 1;
    }
    proof {
        lemma_strings_view_props(extras@);
        assert(strings_view(extras@).skip(n as int) =~= Seq::<Seq<char>>::empty());
    }
}

/// The search path enriched with the supplementary directories: the missing
/// ones stand in front, the inherited components keep their order.
pub open spec fn enhanced_path_spec(path: Seq<char>) -> Seq<char> {
    join_colon(prepend_missing(extra_path_dirs(), split_colon_spec(path)))
}

/// The shell to spawn: the override when one is given, else the default.
pub fn select_shell(shell_override: &Option<String>) -> (r: String)
    ensures
        shell_override matches Some(s) ==> r@ == s@,
        shell_override is None ==> r@ == "/bin/bash"@,
{
    match shell_override {
        Some(s) => s.clone(),
        None => "/bin/bash".to_owned(),
    }
}

/// The LANG value: the inherited one, or the UTF-8 default when absent.
pub open spec fn lang_spec(lang: Option<String>) -> Seq<char> {
    match lang {
        Some(l) => l@,
        None => "en_US.UTF-8"@,
    }
}

pub fn lang_value(lang: &Option<String>) -> (r: String)
    ensures
        r@ == lang_spec(*lang),
{
    match lang {
        Some(l) => l.clone(),
        None => "en_US.UTF-8".to_owned(),
    }
}

/// The package-manager install root: the first candidate when it exists on
/// this machine, else the second.
pub open spec fn homebrew_prefix_spec(root_exists: bool) -> Seq<char> {
    if root_exists {
        "/opt/homebrew"@
    } else {
        "/usr/local"@
    }
}

/// The package-manager variables seeded when none are already set: prefix,
/// cellar, repository and info path, all derived from the chosen root.
pub open spec fn homebrew_vars_spec(already_set: bool, root_exists: bool) -> Seq<
    (Seq<char>, Seq<char>),
> {
    if already_set {
        Seq::empty()
    } else {
        seq![
            ("HOMEBREW_PREFIX"@, homebrew_prefix_spec(root_exists)),
            ("HOMEBREW_CELLAR"@, homebrew_prefix_spec(root_exists) + "/Cellar"@),
            ("HOMEBREW_REPOSITORY"@, homebrew_prefix_spec(root_exists)),
            ("INFOPATH"@, homebrew_prefix_spec(root_exists) + "/share/info:"@),
        ]
    }
}

pub fn homebrew_vars(already_set: bool, root_exists: bool) -> (v: Vec<(String, String)>)
    ensures
        pairs_view(v@) == homebrew_vars_spec(already_set, root_exists),
{
    let mut v: Vec<(String, String)> = Vec::new();
    if already_set {
        proof {
            assert(pairs_view(v@) =~= homebrew_vars_spec(already_set, root_exists));
        }
        return v;
    }
    let prefix: String = if root_exists {
        "/opt/homebrew".to_owned()
    } else {
        "/usr/local".to_owned()
    };
    let cellar: String = prefix.clone().concat("/Cellar");
    let info: String = prefix.clone().concat("/share/info:");
    v.push(("HOMEBREW_PREFIX".to_owned(), prefix.clone()));
    v.push(("HOMEBREW_CELLAR".to_owned(), cellar));
    v.push(("HOMEBREW_REPOSITORY".to_owned(), prefix));
    v.push(("INFOPATH".to_owned(), info));
    proof {
        lemma_pairs_view_props(v@);
        assert(pairs_view(v@) =~= homebrew_vars_spec(already_set, root_exists));
    }
    v
}

/// Appending an inherited pair only when it is present.
pub open spec fn push_opt_pair(
    s: Seq<(Seq<char>, Seq<char>)>,
    key: Seq<char>,
    v: Option<String>,
) -> Seq<(Seq<char>, Seq<char>)> {
    match v {
        Some(x) => s.push((key, x@)),
        None => s,
    }
}

/// The inherited search path, or empty when none was inherited.
pub open spec fn path_or_empty(path: Option<String>) -> Seq<char> {
    match path {
        Some(p) => p@,
        None => Seq::empty(),
    }
}

/// The environment handed to the spawned shell, in the order it is built:
/// the fixed terminal baseline, the inherited variables that are present,
/// LANG with its default, the enriched search path, and the package-manager
/// seeds.
pub open spec fn env_pairs_spec(cfg: SessionConfig) -> Seq<(Seq<char>, Seq<char>)> {
    push_opt_pair(
        push_opt_pair(
            push_opt_pair(
                seq![("TERM"@, "xterm-256color"@), ("COLORTERM"@, "truecolor"@)],
                "PATH"@,
                cfg.path,
            ),
            "HOME"@,
            cfg.home,
        ),
        "USER"@,
        cfg.user,
    ).push(("LANG"@, lang_spec(cfg.lang))).push(
        ("PATH"@, enhanced_path_spec(path_or_empty(cfg.path))),
    ) + homebrew_vars_spec(cfg.homebrew_prefix_set, cfg.homebrew_root_exists)
}

fn push_pair(v: &mut Vec<(String, String)>, k: String, val: String)
    ensures
        pairs_view(final(v)@) == pairs_view(old(v)@).push((k@, val@)),
{
    let ghost v0 = v@;
    v.push((k, val));
    proof {
        assert(v@.drop_last() =~= v0);
        assert(pairs_view(v@) == pairs_view(v0).push((v@.last().0@, v@.last().1@)));
    }
}

/// Build the full environment for a new session from the inherited inputs.
pub fn build_env_pairs(cfg: &SessionConfig) -> (v: Vec<(String, String)>)
    ensures
        pairs_view(v@) == env_pairs_spec(*cfg),
{
    let mut v: Vec<(String, String)> = Vec::new();
    proof {
        assert(pairs_view(v@) =~= Seq::<(Seq<char>, Seq<char>)>::empty());
    }
    push_pair(&mut v, "TERM".to_owned(), "xterm-256color".to_owned());
    push_pair(&mut v, "COLORTERM".to_owned(), "truecolor".to_owned());
    proof {
        assert(pairs_view(v@) =~= seq![("TERM"@, "xterm-256color"@), ("COLORTERM"@, "truecolor"@)]);
    }
    let ghost base = pairs_view(v@);
    if let Some(p) = &cfg.path {
        push_pair(&mut v, "PATH".to_owned(), p.clone());
    }
    proof {
        assert(pairs_view(v@) == push_opt_pair(base, "PATH"@, cfg.path));
    }
    let ghost base1 = pairs_view(v@);
    if let Some(h) = &cfg.home {
        push_pair(&mut v, "HOME".to_owned(), h.clone());
    }
    proof {
        assert(pairs_view(v@) == push_opt_pair(base1, "HOME"@, cfg.home));
    }
    let ghost base2 = pairs_view(v@);
    if let Some(u) = &cfg.user {
        push_pair(&mut v, "USER".to_owned(), u.clone());
    }
    proof {
        assert(pairs_view(v@) == push_opt_pair(base2, "USER"@, cfg.user));
    }
    let lang = lang_value(&cfg.lang);
    push_pair(&mut v, "LANG".to_owned(), lang);
    let current: String = match &cfg.path {
        Some(p) => p.clone(),
        None => String::new(),
    };
    proof {
        assert(current@ == path_or_empty(cfg.path));
    }
    let enriched = enhanced_path(current.as_str());
    push_pair(&mut v, "PATH".to_owned(), enriched);
    let hb = homebrew_vars(cfg.homebrew_prefix_set, cfg.homebrew_root_exists);
    let ghost mid = pairs_view(v@);
    let nh: usize = hb.len();
    let mut j: usize = 0;
    proof {
        lemma_pairs_view_props(hb@);
        assert(mid + pairs_view(hb@).take(0) =~= mid);
    }
    while j < nh
        invariant
            j <= nh,
            nh == hb@.len(),
            pairs_view(hb@) == homebrew_vars_spec(cfg.homebrew_prefix_set, cfg.homebrew_root_exists),
            pairs_view(v@) == mid + pairs_view(hb@).take(j as int),
            mid + pairs_view(hb@) == env_pairs_spec(*cfg),
        decreases nh - j,
    {
        proof {
            lemma_pairs_view_props(hb@);
        }
        let k = hb[j].0.clone();
        let val = hb[j].1.clone();
        push_pair(&mut v, k, val);
        proof {
            assert(pairs_view(hb@).take(j + 1).drop_last() =~= pairs_view(hb@).take(j as int));
            assert(pairs_view(hb@).take(j + 1).last() == (hb@[j as int].0@, hb@[j as int].1@));
            assert((mid + pairs_view(hb@).take(j as int)).push(
                (hb@[j as int].0@, hb@[j as int].1@),
            ) =~= mid + pairs_view(hb@).take(j + 1));
        }
        j = j + 1;
    }
    proof {
        assert(pairs_view(hb@).take(nh as int) =~= pairs_view(hb@));
    }
    v
}

/// Compute the enriched search path from the inherited one.
pub fn enhanced_path(current: &str) -> (r: String)
    ensures
        r@ == enhanced_path_spec(current@),
{
    let mut parts = split_colon(current);
    let extras = extra_paths();
    proof {
        lemma_prepend_missing_len(strings_view(extras@), strings_view(parts@));
        lemma_strings_view_props(parts@);
    }
    add_missing_front(&mut parts, &extras);
    proof {
        lemma_strings_view_props(parts@);
    }
    join_parts(&parts)
}

} // verus!

