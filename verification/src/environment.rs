//! Environment variables, and the `${NAME}` references to them that a configuration may hold.
use crate::pattern;
use crate::text;
use vstd::prelude::*;
use vstd::slice::slice_subrange;

verus! {

/// One environment variable.
#[derive(Debug, Clone)]
pub struct EnvVar {
    pub name: String,
    pub value: String,
}

/// The environment variables of the process, as they were when the configuration was read.
#[derive(Debug, Clone)]
pub struct Environment {
    pub vars: Vec<EnvVar>,
}

impl View for Environment {
    type V = Seq<(Seq<char>, Seq<char>)>;

    open spec fn view(&self) -> Seq<(Seq<char>, Seq<char>)> {
        Seq::new(self.vars@.len(), |i: int| (self.vars@[i].name@, self.vars@[i].value@))
    }
}

/// The value of a variable: that of the first entry of its name.
pub open spec fn env_value(env: Seq<(Seq<char>, Seq<char>)>, name: Seq<char>) -> Option<Seq<char>>
    decreases env.len(),
{
    if env.len() == 0 {
        None
    } else if env[0].0 == name {
        Some(env[0].1)
    } else {
        env_value(env.skip(1), name)
    }
}

impl Environment {
    /// The value of a variable.
    pub fn get(&self, name: &str) -> (r: Option<String>)
        ensures
            text::opt_text(r) == env_value(self@, name@),
    {
        let mut i: usize = 0;
        assert(self@.skip(0) =~= self@);
        while i < self.vars.len()
            invariant
                i <= self.vars@.len(),
                env_value(self@, name@) == env_value(self@.skip(i as int), name@),
            decreases self.vars@.len() - i,
        {
            assert(self@.skip(i as int).skip(1) =~= self@.skip(i + 1));
            if text::same(self.vars[i].name.as_str(), name) {
                return Some(self.vars[i].value.clone());
            }
            i += 1;
        }
        None
    }
}

/// The pattern of a single word character.
pub open spec fn word_pattern() -> Seq<char> {
    "^\\w$"@
}

/// Whether a variable's name may hold this character: an ASCII letter, digit or underscore, or
/// another character of a word.
pub open spec fn is_word_char(c: char) -> bool {
    if (c as u32) < 128 {
        'a' <= c <= 'z' || 'A' <= c <= 'Z' || '0' <= c <= '9' || c == '_'
    } else {
        pattern::found(word_pattern(), seq![c])
    }
}

fn word_char(c: char) -> (r: bool)
    ensures
        r == is_word_char(c),
{
    if (c as u32) < 128 {
        ('a' <= c && c <= 'z') || ('A' <= c && c <= 'Z') || ('0' <= c && c <= '9') || c == '_'
    } else {
        let mut s = String::new();
        s.push(c);
        assert(s@ =~= seq![c]);
        pattern::is_found("^\\w$", s.as_str())
    }
}

/// The number of word characters that `s` begins with.
pub open spec fn word_length(s: Seq<char>) -> int
    decreases s.len(),
{
    if s.len() > 0 && is_word_char(s[0]) {
        1 + word_length(s.skip(1))
    } else {
        0
    }
}

/// The name in the reference that `s` begins with, where it begins with one.
pub open spec fn reference_at_start(s: Seq<char>) -> Option<Seq<char>> {
    let n = word_length(s.skip(2));
    if s.len() >= 4 && s[0] == '$' && s[1] == '{' && n > 0 && n + 2 < s.len() && s[n + 2] == '}' {
        Some(s.subrange(2, n + 2))
    } else {
        None
    }
}

/// `s` with each reference to a variable replaced by its value, by nothing where it is not set.
pub open spec fn expanded(s: Seq<char>, env: Seq<(Seq<char>, Seq<char>)>) -> Seq<char>
    decreases s.len(),
{
    if s.len() == 0 {
        Seq::empty()
    } else {
        match reference_at_start(s) {
            Some(name) => {
                let rest = expanded(s.skip(name.len() as int + 3), env);
                match env_value(env, name) {
                    Some(v) => v + rest,
                    None => rest,
                }
            },
            None => seq![s[0]] + expanded(s.skip(1), env),
        }
    }
}

/// The names that `s` refers to and that are not set, in order.
pub open spec fn missing(s: Seq<char>, env: Seq<(Seq<char>, Seq<char>)>) -> Seq<Seq<char>>
    decreases s.len(),
{
    if s.len() == 0 {
        Seq::empty()
    } else {
        match reference_at_start(s) {
            Some(name) => {
                let rest = missing(s.skip(name.len() as int + 3), env);
                if env_value(env, name) is None {
                    seq![name] + rest
                } else {
                    rest
                }
            },
            None => missing(s.skip(1), env),
        }
    }
}

/// What expanding a text gives: the text, or the error that a required variable is not set.
pub open spec fn expansion(
    s: Seq<char>,
    env: Seq<(Seq<char>, Seq<char>)>,
    required: bool,
) -> Result<Seq<char>, Seq<char>> {
    if required && missing(s, env).len() > 0 {
        Err("required environment variables missing: "@ + text::join(missing(s, env), ", "@))
    } else {
        Ok(expanded(s, env))
    }
}

proof fn lemma_word_length(s: Seq<char>, n: int)
    requires
        0 <= n <= s.len(),
        forall|j: int| 0 <= j < n ==> is_word_char(#[trigger] s[j]),
        n < s.len() ==> !is_word_char(s[n]),
    ensures
        word_length(s) == n,
    decreases n,
{
    if n > 0 {
        assert forall|j: int| 0 <= j < n - 1 implies is_word_char(#[trigger] s.skip(1)[j]) by {
            assert(s.skip(1)[j] == s[j + 1]);
        }
        lemma_word_length(s.skip(1), n - 1);
    }
}

/// The length of the name in the reference that stands at position `i`; 0 where none stands there.
fn reference_name_length(s: &[char], i: usize) -> (r: usize)
    requires
        i < s@.len(),
    ensures
        match reference_at_start(s@.skip(i as int)) {
            Some(name) => r == name.len() && r > 0 && i + r + 3 <= s@.len() && name
                == s@.subrange(i + 2, i + 2 + r),
            None => r == 0,
        },
{
    let ghost rest = s@.skip(i as int);
    if s.len() - i < 4 || s[i] != '$' || s[i + 1] != '{' {
        return 0;
    }
    let mut end: usize = i + 2;
    while end < s.len() && word_char(s[end])
        invariant
            i + 2 <= end <= s@.len(),
            forall|j: int| i + 2 <= j < end ==> is_word_char(#[trigger] s@[j]),
        ensures
            end < s@.len() ==> !is_word_char(s@[end as int]),
        decreases s@.len() - end,
    {
        end += 1;
    }
    let n: usize = end - (i + 2);
    proof {
        lemma_word_length(rest.skip(2), n as int);
    }
    if n == 0 || end == s.len() || s[end] != '}' {
        return 0;
    }
    assert(rest.subrange(2, n + 2) =~= s@.subrange(i + 2, i + 2 + n));
    n
}

/// `s` with each `${NAME}` replaced by the value of the variable. Where `required` is set, a
/// variable that is not set is an error; otherwise nothing takes the place of its reference.
pub fn expand_env(s: &str, env: &Environment, required: bool) -> (r: Result<String, String>)
    ensures
        match r {
            Ok(t) => expansion(s@, env@, required) == Ok::<Seq<char>, Seq<char>>(t@),
            Err(e) => expansion(s@, env@, required) == Err::<Seq<char>, Seq<char>>(e@),
        },
{
    let c = text::chars_of(s);
    let chars = c.as_slice();
    let mut out = String::new();
    let mut absent: Vec<String> = Vec::new();
    let mut i: usize = 0;
    assert(s@.skip(0) =~= s@);
    while i < chars.len()
        invariant
            i <= chars@.len(),
            chars@ == s@,
            out@ + expanded(s@.skip(i as int), env@) == expanded(s@, env@),
            text::strings(absent@) + missing(s@.skip(i as int), env@) == missing(s@, env@),
        decreases chars@.len() - i,
    {
        let ghost rest = s@.skip(i as int);
        let n = reference_name_length(chars, i);
        if n > 0 {
            let name = text::string_of(slice_subrange(chars, i + 2, i + 2 + n));
            let ghost out0 = out@;
            let ghost absent0 = absent@;
            assert(rest.skip(n + 3) =~= s@.skip(i + n + 3));
            match env.get(name.as_str()) {
                Some(v) => {
                    out.append(v.as_str());
                    assert(out0 + (v@ + expanded(s@.skip(i + n + 3), env@)) =~= out@ + expanded(
                        s@.skip(i + n + 3),
                        env@,
                    ));
                },
                None => {
                    absent.push(name);
                    assert(text::strings(absent@) + missing(s@.skip(i + n + 3), env@)
                        =~= text::strings(absent0) + (seq![name@] + missing(
                        s@.skip(i + n + 3),
                        env@,
                    )));
                },
            }
            i = i + n + 3;
        } else {
            let ghost out0 = out@;
            out.push(chars[i]);
            assert(rest.skip(1) =~= s@.skip(i + 1));
            assert(out0 + (seq![s@[i as int]] + expanded(s@.skip(i + 1), env@)) =~= out@ + expanded(
                s@.skip(i + 1),
                env@,
            ));
            i += 1;
        }
    }
    assert(s@.skip(i as int) =~= Seq::<char>::empty());
    assert(out@ =~= expanded(s@, env@));
    assert(text::strings(absent@) =~= missing(s@, env@));
    if required && absent.len() > 0 {
        let mut message = "required environment variables missing: ".to_string();
        message.append(text::join_strings(&absent, ", ").as_str());
        return Err(message);
    }
    Ok(out)
}

/// The expansion of a text whose variables need not be set.
pub fn expand_optional(s: &str, env: &Environment) -> (r: String)
    ensures
        r@ == expanded(s@, env@),
{
    match expand_env(s, env, false) {
        Ok(t) => t,
        Err(_) => String::new(),
    }
}

/// A text without a dollar sign stands for itself, and needs no variable.
pub proof fn law_text_without_references_is_kept(
    s: Seq<char>,
    env: Seq<(Seq<char>, Seq<char>)>,
    required: bool,
)
    requires
        !s.contains('$'),
    ensures
        expansion(s, env, required) == Ok::<Seq<char>, Seq<char>>(s),
    decreases s.len(),
{
    if s.len() > 0 {
        assert(s[0] != '$');
        assert(!s.skip(1).contains('$')) by {
            if s.skip(1).contains('$') {
                let k = choose|k: int| 0 <= k < s.skip(1).len() && s.skip(1)[k] == '$';
                assert(s[k + 1] == '$');
            }
        }
        law_text_without_references_is_kept(s.skip(1), env, true);
        assert(seq![s[0]] + s.skip(1) =~= s);
    } else {
        assert(s =~= Seq::<char>::empty());
    }
}

/// Where every variable that a text refers to is set, it expands to the same text whether its
/// variables are required or not.
pub proof fn law_required_matters_only_for_missing_variables(
    s: Seq<char>,
    env: Seq<(Seq<char>, Seq<char>)>,
)
    ensures
        expansion(s, env, false) == Ok::<Seq<char>, Seq<char>>(expanded(s, env)),
        expansion(s, env, true) is Ok ==> expansion(s, env, true) == expansion(s, env, false),
        expansion(s, env, true) is Ok <==> missing(s, env).len() == 0,
{
}

/// A variable has the value of its first entry; one without an entry has none.
pub proof fn law_first_entry_of_a_variable_counts(
    env: Seq<(Seq<char>, Seq<char>)>,
    name: Seq<char>,
    i: int,
)
    requires
        0 <= i <= env.len(),
        forall|k: int| 0 <= k < i ==> (#[trigger] env[k]).0 != name,
    ensures
        i < env.len() && env[i].0 == name ==> env_value(env, name) == Some(env[i].1),
        i == env.len() ==> env_value(env, name) is None,
    decreases env.len(),
{
    if i > 0 {
        assert(env[0].0 != name);
        let rest = env.skip(1);
        assert forall|k: int| 0 <= k < i - 1 implies (#[trigger] rest[k]).0 != name by {
            assert(rest[k] == env[k + 1]);
        }
        law_first_entry_of_a_variable_counts(rest, name, i - 1);
        if i < env.len() {
            assert(rest[i - 1] == env[i]);
        }
    }
}

/// The ASCII characters that a variable's name may hold are the letters, the digits and `_`.
pub proof fn law_ascii_word_characters(c: char)
    requires
        (c as u32) < 128,
    ensures
        is_word_char(c) <==> 'a' <= c <= 'z' || 'A' <= c <= 'Z' || '0' <= c <= '9' || c == '_',
{
}

/// A reference, `${`, a name and `}`, is replaced by the variable's value, or by nothing where
/// there is no such variable, which is then missing. What is not in a reference stays as it is,
/// character by character.
pub proof fn law_references_are_replaced(
    name: Seq<char>,
    rest: Seq<char>,
    s: Seq<char>,
    env: Seq<(Seq<char>, Seq<char>)>,
)
    requires
        name.len() > 0,
        forall|i: int| 0 <= i < name.len() ==> is_word_char(#[trigger] name[i]),
    ensures
        ({
            let all = seq!['$', '{'] + name + seq!['}'] + rest;
            &&& env_value(env, name) is Some ==> expanded(all, env) == env_value(env, name)->0
                + expanded(rest, env) && missing(all, env) == missing(rest, env)
            &&& env_value(env, name) is None ==> expanded(all, env) == expanded(rest, env)
                && missing(all, env) == seq![name] + missing(rest, env)
        }),
        expanded(Seq::empty(), env) == Seq::<char>::empty(),
        missing(Seq::empty(), env) == Seq::<Seq<char>>::empty(),
        s.len() > 0 && s[0] != '$' ==> expanded(s, env) == seq![s[0]] + expanded(s.skip(1), env)
            && missing(s, env) == missing(s.skip(1), env),
{
    let all = seq!['$', '{'] + name + seq!['}'] + rest;
    let after = all.skip(2);
    assert(after =~= name + seq!['}'] + rest);
    assert forall|j: int| 0 <= j < name.len() implies is_word_char(#[trigger] after[j]) by {
        assert(after[j] == name[j]);
    }
    assert(!is_word_char('}'));
    assert(after[name.len() as int] == '}');
    lemma_word_length(after, name.len() as int);
    assert(all[name.len() as int + 2] == '}');
    assert(all.subrange(2, name.len() as int + 2) =~= name);
    assert(reference_at_start(all) == Some(name));
    assert(all.skip(name.len() as int + 3) =~= rest);
}

/// A dollar sign that no reference follows stays as it is. What is taken for a reference is `${`,
/// a name that is not empty, and `}`.
pub proof fn law_other_dollar_signs_stay(s: Seq<char>, env: Seq<(Seq<char>, Seq<char>)>)
    requires
        s.len() > 0,
    ensures
        reference_at_start(s) is None ==> expanded(s, env) == seq![s[0]] + expanded(s.skip(1), env)
            && missing(s, env) == missing(s.skip(1), env),
        reference_at_start(s) matches Some(name) ==> {
            &&& name.len() > 0
            &&& s.len() >= name.len() + 3
            &&& s.take(name.len() as int + 3) == seq!['$', '{'] + name + seq!['}']
            &&& forall|i: int| 0 <= i < name.len() ==> is_word_char(#[trigger] name[i])
        },
{
    if let Some(name) = reference_at_start(s) {
        let after = s.skip(2);
        lemma_word_prefix(after);
        assert(s.take(name.len() as int + 3) =~= seq!['$', '{'] + name + seq!['}']);
        assert forall|i: int| 0 <= i < name.len() implies is_word_char(#[trigger] name[i]) by {
            assert(name[i] == after[i]);
        }
    }
}

proof fn lemma_word_prefix(s: Seq<char>)
    ensures
        0 <= word_length(s) <= s.len(),
        forall|i: int| 0 <= i < word_length(s) ==> is_word_char(#[trigger] s[i]),
    decreases s.len(),
{
    if s.len() > 0 && is_word_char(s[0]) {
        let t = s.skip(1);
        lemma_word_prefix(t);
        assert forall|i: int| 0 <= i < word_length(s) implies is_word_char(#[trigger] s[i]) by {
            if i > 0 {
                assert(t[i - 1] == s[i]);
            }
        }
    }
}

/// Where every variable is required and some are missing, the error names all of them.
pub proof fn law_missing_variables_are_named(s: Seq<char>, env: Seq<(Seq<char>, Seq<char>)>)
    requires
        missing(s, env).len() > 0,
    ensures
        expansion(s, env, true) == Err::<Seq<char>, Seq<char>>(
            "required environment variables missing: "@ + text::join(missing(s, env), ", "@),
        ),
        expansion(s, env, false) is Ok,
{
}

} // verus!
