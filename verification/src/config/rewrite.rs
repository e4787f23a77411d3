//! Rewrite rules: a pattern, a replacement template and what to do after.

use vstd::prelude::*;

use crate::config::error::ConfigError;
use crate::config::pattern::{regex_compiles, Pattern};
use crate::util::text::{
    chars_of, fields_view, first_failing, lemma_first_failing_extend, split_chars, split_on,
    str_eq, string_of,
};

verus! {

/// What happens once a rewrite rule has changed the path.
#[derive(Clone, Copy, PartialEq, Eq, Structural, Debug)]
pub enum RewriteFlag {
    /// Routing starts over with the new path.
    Last,
    /// The source stays selected; only the path changes.
    Break,
}

/// A rewrite rule as a mathematical value.
pub struct RewriteRule {
    pub pattern: Seq<char>,
    pub replacement: Seq<char>,
    pub flag: RewriteFlag,
}

/// The rule that a `rewrite` entry denotes, if it is well formed:
/// `pattern replacement`, optionally followed by `last` or `break`.
/// Without a flag the rule is a `last` rule.
pub open spec fn parse_rewrite(s: Seq<char>) -> Option<RewriteRule> {
    let parts = split_on(s, ' ');
    if parts.len() == 2 {
        Some(RewriteRule { pattern: parts[0], replacement: parts[1], flag: RewriteFlag::Last })
    } else if parts.len() == 3 {
        if parts[2] == "last"@ {
            Some(RewriteRule { pattern: parts[0], replacement: parts[1], flag: RewriteFlag::Last })
        } else if parts[2] == "break"@ {
            Some(
                RewriteRule { pattern: parts[0], replacement: parts[1], flag: RewriteFlag::Break },
            )
        } else {
            None
        }
    } else {
        None
    }
}

/// One rewrite rule of a source.
#[derive(Clone, Debug)]
pub enum Rewrite {
    Last(Pattern, String),
    Break(Pattern, String),
}

impl View for Rewrite {
    type V = RewriteRule;

    open spec fn view(&self) -> RewriteRule {
        match self {
            Rewrite::Last(p, r) => RewriteRule {
                pattern: p@,
                replacement: r@,
                flag: RewriteFlag::Last,
            },
            Rewrite::Break(p, r) => RewriteRule {
                pattern: p@,
                replacement: r@,
                flag: RewriteFlag::Break,
            },
        }
    }
}

/// The rules that a list of rewrites stands for, in the same order.
pub open spec fn rewrites_view(rewrites: Seq<Rewrite>) -> Seq<RewriteRule> {
    rewrites.map_values(|r: Rewrite| r@)
}

impl Rewrite {
    /// Reads one `rewrite` entry of the configuration file `path`.
    ///
    /// Succeeds exactly when the entry is well formed and the engine accepts
    /// its pattern.
    pub fn new(rewrite: String, path: &str) -> (r: Result<Rewrite, ConfigError>)
        ensures
            match parse_rewrite(rewrite@) {
                None => r matches Err(ConfigError::RewriteSyntax { path: p, rewrite: w })
                    && p@ == path@ && w@ == rewrite@,
                Some(rule) => if regex_compiles(rule.pattern) {
                    r matches Ok(rw) && rw@ == rule
                } else {
                    r matches Err(e) && e is BadPattern && e.path_text() == path@
                },
            },
    {
        let chars = chars_of(rewrite.as_str());
        let parts = split_chars(&chars, ' ');
        assert(parts@.len() == fields_view(parts@).len());
        if parts.len() != 2 && parts.len() != 3 {
            return Err(ConfigError::RewriteSyntax { path: path.to_owned(), rewrite });
        }
        assert(fields_view(parts@)[0] == parts@[0]@);
        assert(fields_view(parts@)[1] == parts@[1]@);
        let mut flag = RewriteFlag::Last;
        if parts.len() == 3 {
            assert(fields_view(parts@)[2] == parts@[2]@);
            let word = string_of(&parts[2]);
            if str_eq(word.as_str(), "break") {
                flag = RewriteFlag::Break;
            } else if !str_eq(word.as_str(), "last") {
                return Err(ConfigError::RewriteSyntax { path: path.to_owned(), rewrite });
            }
            proof {
                reveal_strlit("last");
                reveal_strlit("break");
                if word@ == "break"@ {
                    assert("break"@[0] != "last"@[0]);
                }
            }
        }
        let source = string_of(&parts[0]);
        let replacement = string_of(&parts[1]);
        match Pattern::new(source.as_str(), path) {
            Ok(p) => match flag {
                RewriteFlag::Last => Ok(Rewrite::Last(p, replacement)),
                RewriteFlag::Break => Ok(Rewrite::Break(p, replacement)),
            },
            Err(e) => Err(e),
        }
    }

    /// The pattern that triggers this rule.
    pub fn regex_as_ref(&self) -> (r: &Pattern)
        ensures
            r@ == self@.pattern,
    {
        match self {
            Rewrite::Last(re, _) => re,
            Rewrite::Break(re, _) => re,
        }
    }

    /// The replacement template.
    pub fn replace_as_ref(&self) -> (r: &str)
        ensures
            r@ == self@.replacement,
    {
        match self {
            Rewrite::Last(_, replace) => replace.as_str(),
            Rewrite::Break(_, replace) => replace.as_str(),
        }
    }

    /// Whether routing starts over after this rule.
    pub fn is_last(&self) -> (r: bool)
        ensures
            r == (self@.flag == RewriteFlag::Last),
    {
        match self {
            Rewrite::Last(_, _) => true,
            Rewrite::Break(_, _) => false,
        }
    }

    /// Whether the selected source stays after this rule.
    pub fn is_break(&self) -> (r: bool)
        ensures
            r == (self@.flag == RewriteFlag::Break),
    {
        match self {
            Rewrite::Last(_, _) => false,
            Rewrite::Break(_, _) => true,
        }
    }
}


/// Whether a `rewrite` entry is accepted: it is well formed and the engine
/// accepts its pattern.
pub open spec fn rewrite_ok(entry: String) -> bool {
    match parse_rewrite(entry@) {
        None => false,
        Some(rule) => regex_compiles(rule.pattern),
    }
}

/// Whether `e` is the error that a refused `rewrite` entry of the file
/// `path` is reported with.
pub open spec fn is_rewrite_error(e: ConfigError, entry: Seq<char>, path: Seq<char>) -> bool {
    match parse_rewrite(entry) {
        None => e matches ConfigError::RewriteSyntax { path: p, rewrite: w } && p@ == path && w@
            == entry,
        Some(_) => e is BadPattern && e.path_text() == path,
    }
}

/// The rules of a list of accepted `rewrite` entries.
pub open spec fn parsed_rewrites(entries: Seq<String>) -> Seq<RewriteRule> {
    entries.map_values(|entry: String| parse_rewrite(entry@).unwrap())
}

/// The first entry of an optional list that is refused.
pub open spec fn first_bad_rewrite(entries: Option<Vec<String>>) -> Option<int> {
    match entries {
        None => None,
        Some(list) => first_failing(list@, |entry: String| rewrite_ok(entry)),
    }
}

/// Whether `rewrites` holds the rules that the entries denote, in the same
/// order; a source without entries has no list of rules.
pub open spec fn rewrites_match(rewrites: Option<Vec<Rewrite>>, entries: Option<Vec<String>>)
    -> bool {
    match entries {
        None => rewrites is None,
        Some(list) => rewrites matches Some(rules) && rewrites_view(rules@) == parsed_rewrites(
            list@,
        ),
    }
}

/// Reads the `rewrite` entries of a source in the file `path`. The first
/// entry that is refused is reported; without one the rules are handed back.
pub fn parse_rewrites(entries: Option<Vec<String>>, path: &str) -> (r: Result<
    Option<Vec<Rewrite>>,
    ConfigError,
>)
    ensures
        match first_bad_rewrite(entries) {
            None => r matches Ok(v) && rewrites_match(v, entries),
            Some(i) => r matches Err(e) && is_rewrite_error(e, entries.unwrap()@[i]@, path@),
        },
{
    match entries {
        None => Ok(None),
        Some(list) => {
            let ghost ok = |entry: String| rewrite_ok(entry);
            let mut result: Vec<Rewrite> = Vec::new();
            let mut i: usize = 0;
            assert(list@.take(0) =~= Seq::<String>::empty());
            assert(rewrites_view(result@) =~= parsed_rewrites(list@.take(0)));
            while i < list.len()
                invariant
                    i <= list.len(),
                    ok == |entry: String| rewrite_ok(entry),
                    entries == Some(list),
                    first_failing(list@.take(i as int), ok) is None,
                    rewrites_view(result@) == parsed_rewrites(list@.take(i as int)),
                decreases list.len() - i,
            {
                assert(list@.take(i + 1).drop_last() =~= list@.take(i as int));
                assert(list@.take(i + 1).last() == list@[i as int]);
                let ghost before = rewrites_view(result@);
                match Rewrite::new(list[i].clone(), path) {
                    Ok(rule) => {
                        result.push(rule);
                        assert(ok(list@[i as int]));
                        assert(rewrites_view(result@) =~= before.push(
                            parse_rewrite(list@[i as int]@).unwrap(),
                        ));
                        assert(parsed_rewrites(list@.take(i + 1)) =~= parsed_rewrites(
                            list@.take(i as int),
                        ).push(parse_rewrite(list@[i as int]@).unwrap()));
                    },
                    Err(e) => {
                        proof {
                            assert(!ok(list@[i as int]));
                            lemma_first_failing_extend(list@, ok, i + 1);
                        }
                        return Err(e);
                    },
                }
                i += 1;
            }
            assert(list@.take(list@.len() as int) =~= list@);
            Ok(Some(result))
        },
    }
}

} // verus!
