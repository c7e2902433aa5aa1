//! Renaming of component package names: exact substitutions first, then
//! the built-in pattern rules.

use vstd::prelude::*;

verus! {

/// An outside regular expression, compiled once.
#[verifier::external_type_specification]
#[verifier::external_body]
pub struct ExRegex(regex::Regex);

/// Whether `pattern` compiles as a regular expression.
pub uninterp spec fn regex_valid(pattern: Seq<char>) -> bool;

/// Whether the expression `pattern` matches somewhere in `text`.
pub uninterp spec fn regex_matches(pattern: Seq<char>, text: Seq<char>) -> bool;

/// `text` with the leftmost-first match of `pattern` replaced by
/// `replacement`, where `$1` and `${1}` stand for capture groups.
pub uninterp spec fn regex_replace(
    pattern: Seq<char>,
    text: Seq<char>,
    replacement: Seq<char>,
) -> Seq<char>;

/// Relies on regex::Regex::new: it fails exactly on patterns that do not
/// compile, which depends on the pattern alone.
#[verifier::external_body]
fn compile_regex(pattern: &str) -> (r: Option<regex::Regex>)
    ensures
        r is Some <==> regex_valid(pattern@),
{
    regex::Regex::new(pattern).ok()
}

/// Relies on regex::Regex::is_match: true if and only if the expression
/// matches somewhere in `text`. The rule's regex was compiled from its
/// `pattern` (see `PackageRule::compile`, its only constructor).
#[verifier::external_body]
fn rule_is_match(rule: &PackageRule, text: &str) -> (r: bool)
    ensures
        r == regex_matches(rule.pattern@, text@),
{
    rule.regex.is_match(text)
}

/// Relies on regex::Regex::replace: replaces the leftmost-first match,
/// expanding capture references in the replacement. The rule's regex was
/// compiled from its `pattern`.
#[verifier::external_body]
fn rule_replace(rule: &PackageRule, text: &str) -> (r: String)
    ensures
        r@ == regex_replace(rule.pattern@, text@, rule.replacement@),
{
    rule.regex.replace(text, rule.replacement.as_str()).into_owned()
}

/// Whether two strings hold the same characters.
pub fn same_text(a: &str, b: &str) -> (r: bool)
    ensures
        r == (a@ == b@),
{
    let n = a.unicode_len();
    if n != b.unicode_len() {
        return false;
    }
    let mut i: usize = 0;
    while i < n
        invariant
            n == a@.len() == b@.len(),
            i <= n,
            a@.take(i as int) == b@.take(i as int),
        decreases n - i,
    {
        if a.get_char(i) != b.get_char(i) {
            assert(a@[i as int] != b@[i as int]);
            return false;
        }
        i += 1;
        assert(a@.take(i as int) =~= a@.take(i - 1).push(a@[i - 1]));
        assert(b@.take(i as int) =~= b@.take(i - 1).push(b@[i - 1]));
    }
    assert(a@ =~= a@.take(n as int));
    assert(b@ =~= b@.take(n as int));
    true
}

/// An exact package substitution: `from` becomes `to`.
#[derive(Debug)]
pub struct PackageMap {
    pub from: String,
    pub to: String,
}

impl PackageMap {
    pub fn new(from: String, to: String) -> (r: PackageMap)
        ensures
            r.from@ == from@,
            r.to@ == to@,
    {
        PackageMap { from, to }
    }

    /// `to` where `package` is exactly `from`.
    pub fn rename(&self, package: &str) -> (r: Option<String>)
        ensures
            match r {
                Some(s) => self.from@ == package@ && s@ == self.to@,
                None => self.from@ != package@,
            },
    {
        if same_text(self.from.as_str(), package) {
            Some(self.to.clone())
        } else {
            None
        }
    }
}

/// A pattern rule: a regular expression and the replacement for its match.
pub struct PackageRule {
    pattern: String,
    replacement: String,
    regex: regex::Regex,
}

impl PackageRule {
    pub closed spec fn pattern_view(&self) -> Seq<char> {
        self.pattern@
    }

    pub closed spec fn replacement_view(&self) -> Seq<char> {
        self.replacement@
    }

    /// Compiles `pattern`; `None` where it is not a valid expression.
    pub fn compile(pattern: &str, replacement: &str) -> (r: Option<PackageRule>)
        ensures
            r is Some <==> regex_valid(pattern@),
            r matches Some(rule) ==> rule.pattern_view() == pattern@ && rule.replacement_view()
                == replacement@,
    {
        match compile_regex(pattern) {
            Some(regex) => Some(
                PackageRule {
                    pattern: String::from_str(pattern),
                    replacement: String::from_str(replacement),
                    regex,
                },
            ),
            None => None,
        }
    }
}

/// The substitution for `package`: the `to` of the first map whose `from`
/// is `package`.
pub open spec fn substitute(maps: Seq<PackageMap>, package: Seq<char>) -> Option<Seq<char>>
    decreases maps.len(),
{
    if maps.len() == 0 {
        None
    } else if maps[0].from@ == package {
        Some(maps[0].to@)
    } else {
        substitute(maps.drop_first(), package)
    }
}

/// `package` rewritten by the first rule, of `(pattern, replacement)`
/// pairs, whose pattern matches it; unchanged where none matches.
pub open spec fn apply_rules(rules: Seq<(Seq<char>, Seq<char>)>, package: Seq<char>) -> Seq<char>
    decreases rules.len(),
{
    if rules.len() == 0 {
        package
    } else if regex_matches(rules[0].0, package) {
        regex_replace(rules[0].0, package, rules[0].1)
    } else {
        apply_rules(rules.drop_first(), package)
    }
}

/// The built-in rules, in the order they are tried.
pub open spec fn standard_rules() -> Seq<(Seq<char>, Seq<char>)> {
    seq![
        ("Crystal_SMD_([0-9]+)[_-].+"@, "XTAL-${1}"@),
        ("([VWDLTQ]?)F([NP]?)-([0-9]+)[-_].+"@, "${1}F${2}-${3}"@),
        ("(.+)GA-([0-9]+)[_-].+"@, "${1}GA-${2}"@),
        ("(.+)SO([DP]?)-([0-9]+)[_-]*.*"@, "${1}SO${2}-${3}"@),
        ("LED_([0-9]+)_.+"@, "${1}"@),
        ("[RCLD]_([0-9]+)_.+"@, "${1}"@),
    ]
}

/// Renames package names: exact substitutions first, then the pattern rules.
pub struct PackageConverter {
    substitutions: Vec<PackageMap>,
    package_converters: Vec<PackageRule>,
}

impl PackageConverter {
    pub closed spec fn maps(&self) -> Seq<PackageMap> {
        self.substitutions@
    }

    pub closed spec fn rules(&self) -> Seq<(Seq<char>, Seq<char>)> {
        self.package_converters@.map_values(
            |r: PackageRule| (r.pattern_view(), r.replacement_view()),
        )
    }

    /// A converter with the given substitutions and the built-in rules;
    /// `None` where a built-in pattern does not compile.
    pub fn new(substitutions: Vec<PackageMap>) -> (r: Option<PackageConverter>)
        ensures
            r is Some <==> (forall|i: int|
                0 <= i < standard_rules().len() ==> regex_valid(#[trigger] standard_rules()[i].0)),
            r matches Some(c) ==> c.maps() == substitutions@ && c.rules() == standard_rules(),
    {
        let ghost std_rules = standard_rules();
        let mut package_converters: Vec<PackageRule> = Vec::new();
        let r0 = PackageRule::compile("Crystal_SMD_([0-9]+)[_-].+", "XTAL-${1}");
        let r1 = PackageRule::compile("([VWDLTQ]?)F([NP]?)-([0-9]+)[-_].+", "${1}F${2}-${3}");
        let r2 = PackageRule::compile("(.+)GA-([0-9]+)[_-].+", "${1}GA-${2}");
        let r3 = PackageRule::compile("(.+)SO([DP]?)-([0-9]+)[_-]*.*", "${1}SO${2}-${3}");
        let r4 = PackageRule::compile("LED_([0-9]+)_.+", "${1}");
        let r5 = PackageRule::compile("[RCLD]_([0-9]+)_.+", "${1}");
        match (r0, r1, r2, r3, r4, r5) {
            (Some(a), Some(b), Some(c), Some(d), Some(e), Some(f)) => {
                package_converters.push(a);
                package_converters.push(b);
                package_converters.push(c);
                package_converters.push(d);
                package_converters.push(e);
                package_converters.push(f);
                let conv = PackageConverter { substitutions, package_converters };
                assert(conv.rules() =~= std_rules);
                Some(conv)
            },
            _ => {
                proof {
                    if forall|i: int| 0 <= i < std_rules.len() ==> regex_valid(#[trigger] std_rules[i].0) {
                        assert(regex_valid(std_rules[0].0));
                        assert(regex_valid(std_rules[1].0));
                        assert(regex_valid(std_rules[2].0));
                        assert(regex_valid(std_rules[3].0));
                        assert(regex_valid(std_rules[4].0));
                        assert(regex_valid(std_rules[5].0));
                    }
                }
                None
            },
        }
    }

    /// The package name to use for `package`.
    pub fn rename(&self, package: &str) -> (r: String)
        ensures
            r@ == match substitute(self.maps(), package@) {
                Some(name) => name,
                None => apply_rules(self.rules(), package@),
            },
    {
        let mut i: usize = 0;
        assert(self.maps().skip(0) =~= self.maps());
        while i < self.substitutions.len()
            invariant
                i <= self.substitutions@.len(),
                substitute(self.maps(), package@) == substitute(self.maps().skip(i as int), package@),
            decreases self.substitutions@.len() - i,
        {
            if let Some(name) = self.substitutions[i].rename(package) {
                return name;
            }
            assert(self.maps().skip(i as int).drop_first() =~= self.maps().skip(i + 1));
            i += 1;
        }
        let mut j: usize = 0;
        assert(self.rules().skip(0) =~= self.rules());
        while j < self.package_converters.len()
            invariant
                j <= self.package_converters@.len(),
                substitute(self.maps(), package@) is None,
                apply_rules(self.rules(), package@) == apply_rules(self.rules().skip(j as int), package@),
            decreases self.package_converters@.len() - j,
        {
            let rule = &self.package_converters[j];
            if rule_is_match(rule, package) {
                return rule_replace(rule, package);
            }
            assert(self.rules().skip(j as int).drop_first() =~= self.rules().skip(j + 1));
            j += 1;
        }
        String::from_str(package)
    }
}

} // verus!
