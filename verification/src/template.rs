//! Renders source-location templates against a set of named substitutions.
//!
//! The engine is built from declared substitutions: fixed values, and values
//! drawn from the environment. Reading the environment is the caller's task;
//! the engine takes a snapshot of the variables it may need. A package's
//! declared version joins the data under the key `version` unless a
//! substitution already claims that key.

use vstd::prelude::*;

use crate::manifest::Substitution;

verus! {

/// How building the template engine can fail.
#[derive(Debug)]
pub enum TemplateGenerationError {
    /// The toolchain version could not be determined; holds the error's text.
    RustVersionError(String),
    /// A substitution draws on an environment variable that is not set; holds
    /// the variable's name.
    EnvError(String),
}

/// What rendering a template against a data map yields, or `None` where the
/// template does not render.
pub uninterp spec fn hbs_render(template: Seq<char>, data: Map<Seq<char>, Seq<char>>) -> Option<
    Seq<char>,
>;

/// The map a list of key-value pairs stands for; later pairs win.
pub open spec fn entries_map(s: Seq<(Seq<char>, Seq<char>)>) -> Map<Seq<char>, Seq<char>>
    decreases s.len(),
{
    if s.len() == 0 {
        Map::empty()
    } else {
        entries_map(s.drop_last()).insert(s.last().0, s.last().1)
    }
}

/// Relies on handlebars::Handlebars::render_template: rendering a template
/// string against a string-to-string data map, a function of the template and
/// the data alone.
#[verifier::external_body]
fn hbs_render_map(template: &str, data: &Vec<(String, String)>) -> (r: Result<String, String>)
    ensures
        match r {
            Ok(s) => hbs_render(template@, entries_map(data.deep_view())) == Some(s@),
            Err(_) => hbs_render(template@, entries_map(data.deep_view())) is None,
        },
{
    let mut map = std::collections::BTreeMap::new();
    for (k, v) in data.iter() {
        map.insert(k.as_str(), v.as_str());
    }
    let engine = handlebars::Handlebars::new();
    engine.render_template(template, &map).map_err(|e| e.to_string())
}

/// The value an environment snapshot holds for a variable: `None` when the
/// snapshot does not list the variable, `Some(None)` when it lists it as
/// unset.
pub open spec fn lookup_env(env: Seq<(String, Option<String>)>, key: Seq<char>) -> Option<
    Option<Seq<char>>,
>
    decreases env.len(),
{
    if env.len() == 0 {
        None
    } else if env[0].0@ == key {
        Some(env[0].1.deep_view())
    } else {
        lookup_env(env.skip(1), key)
    }
}

/// The resolved key-value pairs a substitution list produces against an
/// environment snapshot, or the name of the first environment variable that
/// is missing.
pub open spec fn resolve_subs(
    subs: Seq<(String, Substitution)>,
    env: Seq<(String, Option<String>)>,
) -> Result<Seq<(Seq<char>, Seq<char>)>, Seq<char>>
    decreases subs.len(),
{
    if subs.len() == 0 {
        Ok(Seq::empty())
    } else {
        match resolve_subs(subs.drop_last(), env) {
            Err(k) => Err(k),
            Ok(rs) => match subs.last().1 {
                Substitution::Value(v) => Ok(rs.push((subs.last().0@, v@))),
                Substitution::EnvironmentVariable(key) => match lookup_env(env, key@) {
                    Some(Some(v)) => Ok(rs.push((subs.last().0@, v))),
                    _ => Err(key@),
                },
            },
        }
    }
}

/// The pairs the toolchain version contributes to the data.
pub open spec fn rustc_prefix(v: Option<Seq<char>>) -> Seq<(Seq<char>, Seq<char>)> {
    match v {
        Some(s) => seq![("rustc_short_version"@, s)],
        None => Seq::empty(),
    }
}

/// Whether a pair list claims a key.
pub open spec fn claims_key(s: Seq<(Seq<char>, Seq<char>)>, key: Seq<char>) -> bool {
    exists|i: int| 0 <= i < s.len() && (#[trigger] s[i]).0 == key
}

/// The data one rendering runs against: the resolved substitutions, preceded
/// by the package's version under the key `version` unless a substitution
/// already claims that key.
pub open spec fn render_entries(
    subs: Seq<(Seq<char>, Seq<char>)>,
    version: Option<Seq<char>>,
) -> Seq<(Seq<char>, Seq<char>)> {
    match version {
        None => subs,
        Some(v) => if claims_key(subs, "version"@) {
            subs
        } else {
            seq![("version"@, v)] + subs
        },
    }
}

/// What rendering a template yields under an engine's substitutions and an
/// optional package version.
pub open spec fn rendered_with(
    subs: Seq<(Seq<char>, Seq<char>)>,
    version: Option<Seq<char>>,
    template: Seq<char>,
) -> Option<Seq<char>> {
    hbs_render(template, entries_map(render_entries(subs, version)))
}

proof fn lemma_resolve_prefix_err(
    subs: Seq<(String, Substitution)>,
    env: Seq<(String, Option<String>)>,
    m: int,
    k: Seq<char>,
)
    requires
        0 <= m <= subs.len(),
        resolve_subs(subs.take(m), env) == Err::<Seq<(Seq<char>, Seq<char>)>, Seq<char>>(k),
    ensures
        resolve_subs(subs, env) == Err::<Seq<(Seq<char>, Seq<char>)>, Seq<char>>(k),
    decreases subs.len(),
{
    if m == subs.len() {
        assert(subs.take(m) =~= subs);
    } else {
        assert(subs.drop_last().take(m) =~= subs.take(m));
        lemma_resolve_prefix_err(subs.drop_last(), env, m, k);
    }
}

/// Renders source-location templates against resolved substitutions.
pub struct TemplateEngine {
    substitutions: Vec<(String, String)>,
}

impl TemplateEngine {
    /// The resolved substitutions, in the order they joined.
    pub closed spec fn subs_spec(&self) -> Seq<(Seq<char>, Seq<char>)> {
        self.substitutions.deep_view()
    }

    /// Resolves the declared substitutions against an environment snapshot.
    /// The toolchain's version, where known, joins the data first under
    /// `rustc_short_version`. Fails naming the first environment variable a
    /// substitution needs that the snapshot has no value for.
    pub fn new(
        substitutions: Vec<(String, Substitution)>,
        rustc_short_version: Option<String>,
        env: &Vec<(String, Option<String>)>,
    ) -> (r: Result<TemplateEngine, TemplateGenerationError>)
        ensures
            match r {
                Ok(t) => (resolve_subs(substitutions@, env@) matches Ok(rs) && t.subs_spec()
                    == rustc_prefix(rustc_short_version.deep_view()) + rs),
                Err(e) => (resolve_subs(substitutions@, env@) matches Err(k) && match e {
                    TemplateGenerationError::EnvError(n) => n@ == k,
                    _ => false,
                }),
            },
    {
        let ghost rv = rustc_short_version.deep_view();
        let mut resolved: Vec<(String, String)> = Vec::new();
        match rustc_short_version {
            Some(v) => {
                resolved.push(("rustc_short_version".to_owned(), v));
            },
            None => {},
        }
        proof {
            assert(resolved.deep_view() =~= rustc_prefix(rv));
        }
        let mut i: usize = 0;
        while i < substitutions.len()
            invariant
                i <= substitutions@.len(),
                resolve_subs(substitutions@.take(i as int), env@) matches Ok(rs)
                    && resolved.deep_view() == rustc_prefix(rv) + rs,
            decreases substitutions@.len() - i,
        {
            let ghost pre = resolved.deep_view();
            let ghost prefix = substitutions@.take(i as int);
            let ghost step = substitutions@.take(i as int + 1);
            proof {
                assert(step.drop_last() =~= prefix);
                assert(step.last() == substitutions@[i as int]);
            }
            let name = substitutions[i].0.clone();
            let value = match &substitutions[i].1 {
                Substitution::Value(v) => v.clone(),
                Substitution::EnvironmentVariable(key) => match env_get(env, key) {
                    Some(v) => v,
                    None => {
                        proof {
                            assert(resolve_subs(step, env@) == Err::<
                                Seq<(Seq<char>, Seq<char>)>,
                                Seq<char>,
                            >(key@));
                            lemma_resolve_prefix_err(substitutions@, env@, i as int + 1, key@);
                        }
                        return Err(TemplateGenerationError::EnvError(key.clone()));
                    },
                },
            };
            let ghost value_view = value@;
            resolved.push((name, value));
            proof {
                assert(resolved.deep_view() =~= pre.push((substitutions@[i as int].0@, value_view)))
                    by {
                    assert forall|q: int|
                        0 <= q < resolved@.len() implies #[trigger] resolved.deep_view()[q]
                        == pre.push((substitutions@[i as int].0@, value_view))[q] by {
                        if q < pre.len() {
                            assert(resolved.deep_view()[q] == pre[q]);
                        }
                    }
                }
                let rs = resolve_subs(prefix, env@)->Ok_0;
                assert(rustc_prefix(rv) + rs.push((substitutions@[i as int].0@, value_view))
                    =~= (rustc_prefix(rv) + rs).push((substitutions@[i as int].0@, value_view)));
            }
            i = i + 1;
        }
        proof {
            assert(substitutions@.take(substitutions@.len() as int) =~= substitutions@);
        }
        Ok(TemplateEngine { substitutions: resolved })
    }

    /// Renders one template. The data is the engine's substitutions, joined
    /// by the package's version under `version` where no substitution claims
    /// that key. Fails with the renderer's message where the template does
    /// not render.
    pub fn render(&self, template: &str, version: Option<&str>) -> (r: Result<String, String>)
        ensures
            match r {
                Ok(s) => rendered_with(self.subs_spec(), version.deep_view(), template@) == Some(
                    s@,
                ),
                Err(_) => rendered_with(self.subs_spec(), version.deep_view(), template@) is None,
            },
    {
        let mut data: Vec<(String, String)> = Vec::new();
        match version {
            Some(v) => {
                if !self.claims_version_key() {
                    data.push(("version".to_owned(), v.to_owned()));
                }
            },
            None => {},
        }
        let ghost head = data.deep_view();
        let mut i: usize = 0;
        proof {
            assert(head + self.subs_spec().take(0) =~= head);
        }
        while i < self.substitutions.len()
            invariant
                i <= self.substitutions@.len(),
                data.deep_view() == head + self.subs_spec().take(i as int),
            decreases self.substitutions@.len() - i,
        {
            let ghost pre = data.deep_view();
            let name = self.substitutions[i].0.clone();
            let value = self.substitutions[i].1.clone();
            data.push((name, value));
            proof {
                assert(data.deep_view() =~= pre.push(self.subs_spec()[i as int])) by {
                    assert forall|q: int|
                        0 <= q < data@.len() implies #[trigger] data.deep_view()[q] == pre.push(
                        self.subs_spec()[i as int],
                    )[q] by {
                        if q < pre.len() {
                            assert(data.deep_view()[q] == pre[q]);
                        }
                    }
                }
                assert(head + self.subs_spec().take(i as int + 1) =~= (head + self.subs_spec().take(
                    i as int,
                )).push(self.subs_spec()[i as int]));
            }
            i = i + 1;
        }
        proof {
            assert(self.subs_spec().take(self.subs_spec().len() as int) =~= self.subs_spec());
            assert(head + self.subs_spec() =~= render_entries(
                self.subs_spec(),
                version.deep_view(),
            ));
        }
        hbs_render_map(template, &data)
    }

    /// Whether any substitution claims the key `version`.
    fn claims_version_key(&self) -> (r: bool)
        ensures
            r == claims_key(self.subs_spec(), "version"@),
    {
        let key = "version".to_owned();
        let mut i: usize = 0;
        while i < self.substitutions.len()
            invariant
                i <= self.substitutions@.len(),
                key@ == "version"@,
                forall|j: int| 0 <= j < i ==> (#[trigger] self.subs_spec()[j]).0 != "version"@,
            decreases self.substitutions@.len() - i,
        {
            let hit = crate::paths::string_eq(&self.substitutions[i].0, &key);
            proof {
                assert(self.subs_spec()[i as int] == self.substitutions@[i as int].deep_view());
            }
            if hit {
                proof {
                    assert((self.subs_spec()[i as int]).0 == "version"@);
                }
                return true;
            }
            i = i + 1;
        }
        false
    }
}

/// The snapshot's value for an environment variable, where it lists one.
fn env_get(env: &Vec<(String, Option<String>)>, key: &String) -> (r: Option<String>)
    ensures
        match r {
            Some(v) => lookup_env(env@, key@) == Some(Some(v@)),
            None => !(lookup_env(env@, key@) matches Some(Some(_))),
        },
{
    let mut i: usize = 0;
    proof {
        assert(env@.skip(0) =~= env@);
    }
    while i < env.len()
        invariant
            i <= env@.len(),
            lookup_env(env@, key@) == lookup_env(env@.skip(i as int), key@),
        decreases env@.len() - i,
    {
        proof {
            assert(env@.skip(i as int)[0] == env@[i as int]);
            assert(env@.skip(i as int).skip(1) =~= env@.skip(i as int + 1));
        }
        if crate::paths::string_eq(&env[i].0, key) {
            match &env[i].1 {
                Some(v) => {
                    return Some(v.clone());
                },
                None => {
                    return None;
                },
            }
        }
        i = i + 1;
    }
    proof {
        assert(env@.skip(env@.len() as int) =~= Seq::<(String, Option<String>)>::empty());
    }
    None
}

} // verus!
