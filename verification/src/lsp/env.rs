//! The language environment: which builtins a file sees, and the sources that a jump to
//! one of them lands in.
//!
//! Each project directory has a builtin set of its own, which is why one environment for
//! the whole language cannot serve a project. Everything here is made once and then only
//! read.

use vstd::prelude::*;

use crate::list::{lemma_place, lemma_place_is, place_of};
use crate::text::{join5, same};

verus! {

/// What a file of a project is, by the directory it stands in.
#[derive(Debug, Clone, Copy, PartialEq, Eq, Structural)]
pub enum Role {
    Events,
    Lib,
    Command { internal: bool },
    Projector,
    Effect,
    Test,
}

/// Which set of builtins a file sees. Shared code, events and libraries, sees the base
/// set.
#[derive(Debug, Clone, Copy, PartialEq, Eq, Structural)]
pub enum Env {
    Base,
    Command,
    Projector,
    Effect,
    Test,
}

/// The environment that a role is evaluated in.
pub open spec fn env_of(role: Role) -> Env {
    match role {
        Role::Events | Role::Lib => Env::Base,
        Role::Command { .. } => Env::Command,
        Role::Projector => Env::Projector,
        Role::Effect => Env::Effect,
        Role::Test => Env::Test,
    }
}

/// The word that an environment's sources are filed under.
pub open spec fn slug_of(env: Env) -> Seq<char> {
    match env {
        Env::Base => "base"@,
        Env::Command => "command"@,
        Env::Projector => "projector"@,
        Env::Effect => "effect"@,
        Env::Test => "test"@,
    }
}

/// Where an environment stands among them.
pub open spec fn index_of(env: Env) -> nat {
    match env {
        Env::Base => 0,
        Env::Command => 1,
        Env::Projector => 2,
        Env::Effect => 3,
        Env::Test => 4,
    }
}

/// Whether a module in an environment names query clauses.
pub open spec fn names_queries(env: Env) -> bool {
    env is Command || env is Projector || env is Effect
}

impl Env {
    /// The environments, in order.
    pub const ALL: [Env; 5] = [Env::Base, Env::Command, Env::Projector, Env::Effect, Env::Test];

    /// The environment that a role is evaluated in. A new role has to decide what it can
    /// see.
    pub fn for_role(role: Role) -> (r: Env)
        ensures
            r == env_of(role),
    {
        match role {
            Role::Events | Role::Lib => Env::Base,
            Role::Command { .. } => Env::Command,
            Role::Projector => Env::Projector,
            Role::Effect => Env::Effect,
            Role::Test => Env::Test,
        }
    }

    /// Whether a module in this environment names query clauses at its top level. Shared
    /// modules define events rather than filter on them, and a test constructs them.
    pub fn query_mode(self) -> (r: bool)
        ensures
            r == names_queries(self),
            r == (self is Command || self is Projector || self is Effect),
    {
        match self {
            Env::Command | Env::Projector | Env::Effect => true,
            Env::Base | Env::Test => false,
        }
    }

    /// The word that its sources are filed under.
    pub fn slug(self) -> (r: &'static str)
        ensures
            r@ == slug_of(self),
    {
        match self {
            Env::Base => "base",
            Env::Command => "command",
            Env::Projector => "projector",
            Env::Effect => "effect",
            Env::Test => "test",
        }
    }

    /// Where it stands among the environments.
    pub fn index(self) -> (r: usize)
        ensures
            r == index_of(self),
            r < Env::ALL.len(),
            Env::ALL@[r as int] == self,
    {
        match self {
            Env::Base => 0,
            Env::Command => 1,
            Env::Projector => 2,
            Env::Effect => 3,
            Env::Test => 4,
        }
    }
}

/// The path that a builtin's source lives at.
pub open spec fn stub_path_view(env: Env, symbol: Seq<char>) -> Seq<char> {
    "/kiln/"@ + slug_of(env) + "/"@ + symbol + ".star"@
}

/// The path that a builtin's source lives at. It starts with a slash, as the path of a
/// `starlark:` address has to.
pub fn stub_path(env: Env, symbol: &str) -> (r: String)
    ensures
        r@ == stub_path_view(env, symbol@),
{
    join5("/kiln/", env.slug(), "/", symbol, ".star")
}

proof fn lemma_slug(env: Env)
    ensures
        slug_of(env).len() > 0,
        forall|i: int| 0 <= i < slug_of(env).len() ==> slug_of(env)[i] != '/',
{
    reveal_strlit("base");
    reveal_strlit("command");
    reveal_strlit("projector");
    reveal_strlit("effect");
    reveal_strlit("test");
}

proof fn lemma_slugs_differ(a: Env, b: Env)
    requires
        slug_of(a) == slug_of(b),
    ensures
        a == b,
{
    reveal_strlit("base");
    reveal_strlit("command");
    reveal_strlit("projector");
    reveal_strlit("effect");
    reveal_strlit("test");
    assert("base"@[0] == 'b');
    assert("command"@[0] == 'c');
    assert("projector"@[0] == 'p');
    assert("effect"@[0] == 'e');
    assert("test"@[0] == 't');
}

/// A path names one builtin of one environment: the same name may mean different things
/// in two of them.
pub proof fn law_a_stub_path_names_one_builtin(a: Env, b: Env, one: Seq<char>, other: Seq<char>)
    requires
        stub_path_view(a, one) == stub_path_view(b, other),
    ensures
        a == b,
        one == other,
{
    let head = "/kiln/"@;
    let left = stub_path_view(a, one);
    let right = stub_path_view(b, other);
    lemma_slug(a);
    lemma_slug(b);
    reveal_strlit("/");
    let first = slug_of(a).len() as int;
    let second = slug_of(b).len() as int;
    let n = head.len() as int;
    assert(left[n + first] == '/');
    assert(right[n + second] == '/');
    if first < second {
        assert(right[n + first] == slug_of(b)[first]);
    } else if second < first {
        assert(left[n + second] == slug_of(a)[second]);
    }
    assert(slug_of(a) =~= slug_of(b)) by {
        assert forall|i: int| 0 <= i < first implies slug_of(a)[i] == slug_of(b)[i] by {
            assert(left[n + i] == slug_of(a)[i]);
            assert(right[n + i] == slug_of(b)[i]);
        }
    }
    lemma_slugs_differ(a, b);
    assert(one =~= other) by {
        assert(left.len() == n + first + 1 + one.len() + ".star"@.len());
        assert(right.len() == n + first + 1 + other.len() + ".star"@.len());
        assert forall|i: int| 0 <= i < one.len() implies one[i] == other[i] by {
            assert(left[n + first + 1 + i] == one[i]);
            assert(right[n + first + 1 + i] == other[i]);
        }
    }
}

/// One builtin of an environment, with the source that a jump to it lands in.
pub struct Builtin {
    pub env: Env,
    pub name: String,
    pub source: String,
}

/// A builtin of that name in an environment.
pub open spec fn called(env: Env, symbol: Seq<char>) -> spec_fn(Builtin) -> bool {
    |builtin: Builtin| builtin.env == env && builtin.name@ == symbol
}

/// A builtin whose source is at a path.
pub open spec fn filed(path: Seq<char>) -> spec_fn(Builtin) -> bool {
    |builtin: Builtin| stub_path_view(builtin.env, builtin.name@) == path
}

/// Every environment's builtins, with their sources.
pub struct Envs {
    pub builtins: Vec<Builtin>,
}

impl Envs {
    /// Where the last builtin of that name stands in an environment.
    pub open spec fn place(self, env: Env, symbol: Seq<char>) -> Option<int> {
        place_of(self.builtins@, called(env, symbol))
    }

    /// The source at a path, if there is one.
    pub open spec fn source_at(self, path: Seq<char>) -> Option<Seq<char>> {
        match place_of(self.builtins@, filed(path)) {
            Some(at) => Some(self.builtins@[at].source@),
            None => None,
        }
    }

    /// Where a jump to a builtin leads, where the environment has it.
    pub fn symbol_path(&self, env: Env, symbol: &str) -> (r: Option<String>)
        ensures
            crate::text::option_view(r) == match self.place(env, symbol@) {
                Some(_) => Some(stub_path_view(env, symbol@)),
                None => None,
            },
    {
        let ghost wanted = called(env, symbol@);
        let mut i: usize = self.builtins.len();
        while i > 0
            invariant
                i <= self.builtins.len(),
                wanted == called(env, symbol@),
                forall|k: int| i <= k < self.builtins.len() ==> !wanted(#[trigger] self.builtins@[k]),
            decreases i,
        {
            i -= 1;
            if self.builtins[i].env == env && same(&self.builtins[i].name, symbol) {
                proof {
                    lemma_place_is(self.builtins@, wanted, i as int);
                }
                return Some(stub_path(env, symbol));
            }
        }
        proof {
            lemma_place_is(self.builtins@, wanted, -1);
        }
        None
    }

    /// The source at a path, if there is one.
    pub fn stub(&self, path: &str) -> (r: Option<&str>)
        ensures
            match r {
                Some(source) => self.source_at(path@) == Some(source@),
                None => self.source_at(path@) is None,
            },
    {
        let ghost wanted = filed(path@);
        let mut i: usize = self.builtins.len();
        while i > 0
            invariant
                i <= self.builtins.len(),
                wanted == filed(path@),
                forall|k: int| i <= k < self.builtins.len() ==> !wanted(#[trigger] self.builtins@[k]),
            decreases i,
        {
            i -= 1;
            if same(&stub_path(self.builtins[i].env, &self.builtins[i].name), path) {
                proof {
                    lemma_place_is(self.builtins@, wanted, i as int);
                }
                return Some(self.builtins[i].source.as_str());
            }
        }
        proof {
            lemma_place_is(self.builtins@, wanted, -1);
        }
        None
    }
}

/// A jump to a builtin lands in its own source.
pub proof fn law_every_builtin_has_a_reachable_stub(envs: Envs, env: Env, symbol: Seq<char>)
    requires
        envs.place(env, symbol) is Some,
    ensures
        envs.source_at(stub_path_view(env, symbol)) == Some(
            envs.builtins@[envs.place(env, symbol)->0].source@,
        ),
{
    let named = called(env, symbol);
    let here = filed(stub_path_view(env, symbol));
    lemma_place(envs.builtins@, named);
    let at = envs.place(env, symbol)->0;
    assert forall|k: int| at < k < envs.builtins.len() implies !here(#[trigger] envs.builtins@[k]) by {
        assert(!named(envs.builtins@[k]));
        if here(envs.builtins@[k]) {
            law_a_stub_path_names_one_builtin(
                envs.builtins@[k].env,
                env,
                envs.builtins@[k].name@,
                symbol,
            );
        }
    }
    lemma_place_is(envs.builtins@, here, at);
}

} // verus!
