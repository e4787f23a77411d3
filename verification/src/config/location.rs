//! Location rules: which request paths a source accepts.

use vstd::prelude::*;
use vstd::string::StringExecFns;

use crate::config::error::ConfigError;
use crate::config::pattern::{regex_compiles, regex_matches, Pattern};
use crate::util::text::{
    chars_eq, chars_of, chars_start_with, fields_view, first_failing, lemma_first_failing_extend,
    split_chars, split_on, string_of,
};

verus! {

/// A location rule as a mathematical value.
pub enum Rule {
    /// Accepts the paths that begin with the given text.
    Prefix(Seq<char>),
    /// Accepts exactly the given path.
    Exact(Seq<char>),
    /// Accepts the paths in which the given regular expression matches.
    Regex(Seq<char>),
}

impl Rule {
    /// Whether the rule accepts the path `uri`.
    pub open spec fn accepts(self, uri: Seq<char>) -> bool {
        match self {
            Rule::Prefix(p) => p.is_prefix_of(uri),
            Rule::Exact(p) => uri == p,
            Rule::Regex(p) => regex_matches(p, uri),
        }
    }
}

/// `s`, with a `/` appended unless it already ends in one.
pub open spec fn with_trailing_slash(s: Seq<char>) -> Seq<char> {
    if s.len() > 0 && s.last() == '/' {
        s
    } else {
        s.push('/')
    }
}

/// The rule that a `location` entry denotes, if it is well formed:
/// a text starting with `/` is a prefix; `^ p` is the prefix `p`, made to end
/// in `/`; `= p` is the exact path `p`; `~ r` is the regular expression `r`.
pub open spec fn parse_location(s: Seq<char>) -> Option<Rule> {
    if s.len() > 0 && s[0] == '/' {
        Some(Rule::Prefix(s))
    } else {
        let parts = split_on(s, ' ');
        if parts.len() != 2 {
            None
        } else if parts[0] == seq!['^'] {
            Some(Rule::Prefix(with_trailing_slash(parts[1])))
        } else if parts[0] == seq!['='] {
            Some(Rule::Exact(parts[1]))
        } else if parts[0] == seq!['~'] {
            Some(Rule::Regex(parts[1]))
        } else {
            None
        }
    }
}

/// One match rule of a source.
#[derive(Clone, Debug)]
pub enum Location {
    Start(String),
    Equal(String),
    Regex(Pattern),
}

impl View for Location {
    type V = Rule;

    open spec fn view(&self) -> Rule {
        match self {
            Location::Start(l) => Rule::Prefix(l@),
            Location::Equal(l) => Rule::Exact(l@),
            Location::Regex(p) => Rule::Regex(p@),
        }
    }
}

/// The rules that a list of locations stands for.
pub open spec fn rules_view(locations: Seq<Location>) -> Seq<Rule> {
    locations.map_values(|l: Location| l@)
}

fn is_single(part: &Vec<char>, c: char) -> (r: bool)
    ensures
        r == (part@ == seq![c]),
{
    if part.len() == 1 && part[0] == c {
        assert(part@ =~= seq![c]);
        true
    } else {
        assert(seq![c].len() == 1 && seq![c][0] == c);
        false
    }
}

impl Location {
    /// Reads one `location` entry of the configuration file `path`.
    ///
    /// Succeeds exactly when the entry is well formed and, for a regular
    /// expression, the engine accepts it.
    pub fn new(location: String, path: &str) -> (r: Result<Self, ConfigError>)
        ensures
            match parse_location(location@) {
                None => r matches Err(ConfigError::LocationSyntax { path: p, location: l })
                    && p@ == path@ && l@ == location@,
                Some(Rule::Regex(re)) => if regex_compiles(re) {
                    r matches Ok(l) && l@ == Rule::Regex(re)
                } else {
                    r matches Err(e) && e is BadPattern && e.path_text() == path@
                },
                Some(rule) => r matches Ok(l) && l@ == rule,
            },
    {
        let chars = chars_of(location.as_str());
        if chars.len() > 0 && chars[0] == '/' {
            return Ok(Location::Start(location));
        }
        let parts = split_chars(&chars, ' ');
        assert(parts@.len() == fields_view(parts@).len());
        if parts.len() != 2 {
            return Err(ConfigError::LocationSyntax { path: path.to_owned(), location });
        }
        assert(fields_view(parts@)[0] == parts@[0]@);
        assert(fields_view(parts@)[1] == parts@[1]@);
        let op = &parts[0];
        let arg = &parts[1];
        if is_single(op, '^') {
            let mut prefix = string_of(arg);
            if !(arg.len() > 0 && arg[arg.len() - 1] == '/') {
                prefix.push('/');
            }
            Ok(Location::Start(prefix))
        } else if is_single(op, '=') {
            Ok(Location::Equal(string_of(arg)))
        } else if is_single(op, '~') {
            let source = string_of(arg);
            match Pattern::new(source.as_str(), path) {
                Ok(p) => Ok(Location::Regex(p)),
                Err(e) => Err(e),
            }
        } else {
            Err(ConfigError::LocationSyntax { path: path.to_owned(), location })
        }
    }

    /// Whether this rule accepts the path `uri`.
    pub fn matches(&self, uri: &str) -> (r: bool)
        ensures
            r == self@.accepts(uri@),
    {
        match self {
            Location::Start(l) => {
                let u = chars_of(uri);
                let p = chars_of(l.as_str());
                chars_start_with(&u, &p)
            },
            Location::Equal(l) => {
                let u = chars_of(uri);
                let p = chars_of(l.as_str());
                chars_eq(&u, &p)
            },
            Location::Regex(re) => re.is_match(uri),
        }
    }
}


/// Whether a `location` entry is accepted: it is well formed and, if it is
/// a regular expression, the engine accepts it.
pub open spec fn location_ok(entry: String) -> bool {
    match parse_location(entry@) {
        None => false,
        Some(Rule::Regex(re)) => regex_compiles(re),
        Some(_) => true,
    }
}

/// Whether `e` is the error that a refused `location` entry of the file
/// `path` is reported with.
pub open spec fn is_location_error(e: ConfigError, entry: Seq<char>, path: Seq<char>) -> bool {
    match parse_location(entry) {
        None => e matches ConfigError::LocationSyntax { path: p, location: l } && p@ == path && l@
            == entry,
        Some(_) => e is BadPattern && e.path_text() == path,
    }
}

/// The rules of a list of accepted `location` entries.
pub open spec fn parsed_rules(entries: Seq<String>) -> Seq<Rule> {
    entries.map_values(|entry: String| parse_location(entry@).unwrap())
}

/// The match rules of a source: those that its `location` entries denote,
/// in the same order, and the prefix `/`, which accepts every path, for a
/// source without entries.
pub open spec fn rules_of(entries: Option<Vec<String>>) -> Seq<Rule> {
    match entries {
        None => seq![Rule::Prefix("/"@)],
        Some(list) => parsed_rules(list@),
    }
}

/// The first entry of an optional list that is refused.
pub open spec fn first_bad_location(entries: Option<Vec<String>>) -> Option<int> {
    match entries {
        None => None,
        Some(list) => first_failing(list@, |entry: String| location_ok(entry)),
    }
}

/// Reads the `location` entries of a source in the file `path`. The first
/// entry that is refused is reported; without one the rules are handed back.
pub fn parse_locations(entries: Option<Vec<String>>, path: &str) -> (r: Result<
    Vec<Location>,
    ConfigError,
>)
    ensures
        match first_bad_location(entries) {
            None => r matches Ok(v) && rules_view(v@) == rules_of(entries),
            Some(i) => r matches Err(e) && is_location_error(e, entries.unwrap()@[i]@, path@),
        },
{
    match entries {
        None => {
            let mut result: Vec<Location> = Vec::new();
            result.push(Location::Start(String::from_str("/")));
            assert(rules_view(result@) =~= seq![Rule::Prefix("/"@)]);
            Ok(result)
        },
        Some(list) => {
            let ghost ok = |entry: String| location_ok(entry);
            let mut result: Vec<Location> = Vec::new();
            let mut i: usize = 0;
            assert(list@.take(0) =~= Seq::<String>::empty());
            assert(rules_view(result@) =~= parsed_rules(list@.take(0)));
            while i < list.len()
                invariant
                    i <= list.len(),
                    ok == |entry: String| location_ok(entry),
                    entries == Some(list),
                    first_failing(list@.take(i as int), ok) is None,
                    rules_view(result@) == parsed_rules(list@.take(i as int)),
                decreases list.len() - i,
            {
                assert(list@.take(i + 1).drop_last() =~= list@.take(i as int));
                assert(list@.take(i + 1).last() == list@[i as int]);
                let ghost before = rules_view(result@);
                match Location::new(list[i].clone(), path) {
                    Ok(location) => {
                        result.push(location);
                        assert(ok(list@[i as int]));
                        assert(rules_view(result@) =~= before.push(
                            parse_location(list@[i as int]@).unwrap(),
                        ));
                        assert(parsed_rules(list@.take(i + 1)) =~= parsed_rules(
                            list@.take(i as int),
                        ).push(parse_location(list@[i as int]@).unwrap()));
                    },
                    Err(e) => {
                        proof {
                            assert(!ok(list@[i as int]));
                            lemma_first_failing_extend(list@, ok, i + 1);
                        }
                        return Err(e);
                    },
                }
                i += 1;
            }
            assert(list@.take(list@.len() as int) =~= list@);
            Ok(result)
        },
    }
}

} // verus!
