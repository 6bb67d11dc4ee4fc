use vstd::prelude::*;

verus! {

/// The map that a list of assignments leaves behind, a later one winning.
pub open spec fn assignments_map(s: Seq<(String, String)>) -> Map<Seq<char>, Seq<char>>
    decreases s.len(),
{
    if s.len() == 0 {
        Map::empty()
    } else {
        assignments_map(s.drop_last()).insert(s.last().0@, s.last().1@)
    }
}

proof fn lemma_unassigned_tail(s: Seq<(String, String)>, n: int, k: Seq<char>)
    requires
        0 <= n <= s.len(),
        forall|j: int| n <= j < s.len() ==> (#[trigger] s[j]).0@ != k,
    ensures
        assignments_map(s).contains_key(k) == assignments_map(s.take(n)).contains_key(k),
        assignments_map(s)[k] == assignments_map(s.take(n))[k],
    decreases s.len() - n,
{
    if n < s.len() {
        assert(s.drop_last().take(n) =~= s.take(n));
        lemma_unassigned_tail(s.drop_last(), n, k);
    } else {
        assert(s.take(n) =~= s);
    }
}

/// A set of environment variables: names mapped to values.
pub struct EnvVars {
    vars: Vec<(String, String)>,
}

impl View for EnvVars {
    type V = Map<Seq<char>, Seq<char>>;

    closed spec fn view(&self) -> Map<Seq<char>, Seq<char>> {
        assignments_map(self.vars@)
    }
}

impl EnvVars {
    /// No variable set.
    pub fn new() -> (r: EnvVars)
        ensures
            r@ == Map::<Seq<char>, Seq<char>>::empty(),
    {
        EnvVars { vars: Vec::new() }
    }

    /// Sets `name` to `value`, replacing any earlier value.
    pub fn set(&mut self, name: String, value: String)
        ensures
            final(self)@ == old(self)@.insert(name@, value@),
    {
        self.vars.push((name, value));
        proof {
            assert(self.vars@.drop_last() =~= old(self).vars@);
        }
    }

    /// The value of `name`, if it is set.
    pub fn get(&self, name: &str) -> (r: Option<String>)
        ensures
            r is Some <==> self@.contains_key(name@),
            r matches Some(v) ==> v@ == self@[name@],
    {
        let key = String::from_str(name);
        let mut i = self.vars.len();
        while i > 0
            invariant
                i <= self.vars.len(),
                key@ == name@,
                forall|j: int| i <= j < self.vars.len() ==> (#[trigger] self.vars@[j]).0@ != name@,
            decreases i,
        {
            let entry = &self.vars[i - 1];
            if entry.0 == key {
                proof {
                    let s = self.vars@;
                    lemma_unassigned_tail(s, i as int, name@);
                    assert(s.take(i as int).drop_last() =~= s.take(i - 1));
                }
                return Some(entry.1.clone());
            }
            i = i - 1;
        }
        proof {
            lemma_unassigned_tail(self.vars@, 0, name@);
        }
        None
    }

    /// Whether `name` is set.
    pub fn contains(&self, name: &str) -> (r: bool)
        ensures
            r == self@.contains_key(name@),
    {
        self.get(name).is_some()
    }
}

/// A required environment variable that is not set.
pub struct EnvVarError {
    pub name: String,
}

impl EnvVarError {
    /// The diagnostic text for this error.
    pub fn message(&self) -> (r: String)
        ensures
            r@ == "Environment variable `"@ + self.name@
                + "` not set or invalid: environment variable not found"@,
    {
        let mut r = String::from_str("Environment variable `");
        r.append(self.name.as_str());
        r.append("` not set or invalid: environment variable not found");
        r
    }
}

/// The value of the variable `key`, or an error naming it when it is not set.
pub fn get_env_var(env: &EnvVars, key: &str) -> (r: Result<String, EnvVarError>)
    ensures
        r is Ok <==> env@.contains_key(key@),
        r matches Ok(v) ==> v@ == env@[key@],
        r matches Err(e) ==> e.name@ == key@,
{
    match env.get(key) {
        Some(v) => Ok(v),
        None => Err(EnvVarError { name: String::from_str(key) }),
    }
}

} // verus!
