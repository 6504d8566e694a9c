//! The renaming engine: pure conversions of identifiers between naming
//! conventions.  Identifiers arrive either in PascalCase (enum
//! variants) or in snake_case (struct fields and function arguments),
//! and each rule maps them into the configured convention.  Case
//! mapping is ASCII: a character outside `'a'..'z'`/`'A'..'Z'` is
//! never treated as a letter and passes through unchanged.

use vstd::prelude::*;

use crate::text::is_lower_char;
use crate::text::is_upper_char;
use crate::text::lower_char;
use crate::text::lemma_skip_step;
use crate::text::lowered;
use crate::text::push_char;
use crate::text::str_eq_str;
use crate::text::to_lower_char;
use crate::text::to_upper_char;
use crate::text::upper_char;
use crate::text::uppered;

verus! {

broadcast use vstd::utf8::char_u32_cast;

/// The kind of identifier being renamed; it selects the prefix that
/// `RenameRule::GeckoCase` puts in front of the result.
#[derive(Debug, Clone, Copy, PartialEq, Eq, Structural)]
pub enum IdentifierType {
    StructMember,
    EnumVariant,
    FunctionArg,
}

impl IdentifierType {
    /// The `GeckoCase` prefix for this kind of identifier.
    pub open spec fn prefix(self) -> Seq<char> {
        match self {
            IdentifierType::StructMember => seq!['m'],
            IdentifierType::EnumVariant => Seq::<char>::empty(),
            IdentifierType::FunctionArg => seq!['a'],
        }
    }

    pub fn to_str(&self) -> (r: &'static str)
        ensures
            r@ == self.prefix(),
    {
        proof {
            reveal_strlit("m");
            reveal_strlit("");
            reveal_strlit("a");
        }
        match *self {
            IdentifierType::StructMember => {
                let r = "m";
                proof {
                    assert(r@ =~= self.prefix());
                }
                r
            },
            IdentifierType::EnumVariant => {
                let r = "";
                proof {
                    assert(r@ =~= self.prefix());
                }
                r
            },
            IdentifierType::FunctionArg => {
                let r = "a";
                proof {
                    assert(r@ =~= self.prefix());
                }
                r
            },
        }
    }
}

/// A rule to apply to an identifier when generating bindings.
#[derive(Debug, Clone, Copy, PartialEq, Eq, Structural)]
pub enum RenameRule {
    /// Do not apply any renaming.  The default.
    Keep,
    /// Converts the identifier to PascalCase and adds a prefix chosen
    /// by where the identifier is used.
    GeckoCase,
    /// Converts the identifier to lower case.
    LowerCase,
    /// Converts the identifier to upper case.
    UpperCase,
    /// Converts the identifier to PascalCase.
    PascalCase,
    /// Converts the identifier to camelCase.
    CamelCase,
    /// Converts the identifier to snake_case.
    SnakeCase,
    /// Converts the identifier to SCREAMING_SNAKE_CASE.
    ScreamingSnakeCase,
}

/// PascalCase built from a snake_case identifier: underscores are
/// dropped, and the character after each underscore, as well as the
/// first character when `upper_next` starts true, is uppercased.
pub open spec fn pascal_from_snake(s: Seq<char>, upper_next: bool) -> Seq<char>
    decreases s.len(),
{
    if s.len() == 0 {
        Seq::<char>::empty()
    } else if s[0] == '_' {
        pascal_from_snake(s.drop_first(), true)
    } else if upper_next {
        seq![to_upper_char(s[0])] + pascal_from_snake(s.drop_first(), false)
    } else {
        seq![s[0]] + pascal_from_snake(s.drop_first(), false)
    }
}

/// snake_case (`screaming` false) or SCREAMING_SNAKE_CASE (`screaming`
/// true) built from a PascalCase identifier: an underscore is inserted
/// before every uppercase character except the first character of the
/// whole identifier, and every character is then lowercased
/// (respectively uppercased).
pub open spec fn snake_like_from_pascal(s: Seq<char>, first: bool, screaming: bool) -> Seq<char>
    decreases s.len(),
{
    if s.len() == 0 {
        Seq::<char>::empty()
    } else {
        let mapped = if screaming {
            to_upper_char(s[0])
        } else {
            to_lower_char(s[0])
        };
        let head = if is_upper_char(s[0]) && !first {
            seq!['_', mapped]
        } else {
            seq![mapped]
        };
        head + snake_like_from_pascal(s.drop_first(), false, screaming)
    }
}

/// camelCase built from a snake_case identifier: the PascalCase
/// conversion with its leading character lowercased.
pub open spec fn camel_from_snake(s: Seq<char>) -> Seq<char> {
    let p = pascal_from_snake(s, true);
    if p.len() == 0 {
        p
    } else {
        seq![to_lower_char(p[0])] + p.skip(1)
    }
}

/// What `RenameRule::apply_to_pascal_case` returns: the rule applied
/// to an identifier that is already in PascalCase.
pub open spec fn pascal_case_applied(rule: RenameRule, s: Seq<char>, role: IdentifierType) -> Seq<
    char,
> {
    if s.len() == 0 {
        Seq::<char>::empty()
    } else {
        match rule {
            RenameRule::Keep => s,
            RenameRule::GeckoCase => role.prefix() + s,
            RenameRule::LowerCase => lowered(s),
            RenameRule::UpperCase => uppered(s),
            RenameRule::PascalCase => s,
            RenameRule::CamelCase => seq![to_lower_char(s[0])] + s.skip(1),
            RenameRule::SnakeCase => snake_like_from_pascal(s, true, false),
            RenameRule::ScreamingSnakeCase => snake_like_from_pascal(s, true, true),
        }
    }
}

/// What `RenameRule::apply_to_snake_case` returns: the rule applied
/// to an identifier that is already in snake_case.
pub open spec fn snake_case_applied(rule: RenameRule, s: Seq<char>, role: IdentifierType) -> Seq<
    char,
> {
    if s.len() == 0 {
        Seq::<char>::empty()
    } else {
        match rule {
            RenameRule::Keep => s,
            RenameRule::GeckoCase => role.prefix() + pascal_from_snake(
                if s[0] == '_' {
                    s.skip(1)
                } else {
                    s
                },
                true,
            ),
            RenameRule::LowerCase => lowered(s),
            RenameRule::UpperCase => uppered(s),
            RenameRule::PascalCase => pascal_from_snake(s, true),
            RenameRule::CamelCase => camel_from_snake(s),
            RenameRule::SnakeCase => s,
            RenameRule::ScreamingSnakeCase => uppered(s),
        }
    }
}

/// Every character of `text`, lowercased.
fn map_lower(text: &str) -> (r: String)
    ensures
        r@ == lowered(text@),
{
    let n = text.unicode_len();
    let mut result = String::new();
    let mut i: usize = 0;
    while i < n
        invariant
            n == text@.len(),
            i <= n,
            result@ == lowered(text@.take(i as int)),
        decreases n - i,
    {
        let c = text.get_char(i);
        push_char(&mut result, lower_char(c));
        proof {
            assert(lowered(text@.take(i as int + 1)) =~= lowered(text@.take(i as int)).push(
                to_lower_char(text@[i as int]),
            ));
        }
        i += 1;
    }
    proof {
        assert(text@.take(n as int) =~= text@);
    }
    result
}

/// Every character of `text`, uppercased.
fn map_upper(text: &str) -> (r: String)
    ensures
        r@ == uppered(text@),
{
    let n = text.unicode_len();
    let mut result = String::new();
    let mut i: usize = 0;
    while i < n
        invariant
            n == text@.len(),
            i <= n,
            result@ == uppered(text@.take(i as int)),
        decreases n - i,
    {
        let c = text.get_char(i);
        push_char(&mut result, upper_char(c));
        proof {
            assert(uppered(text@.take(i as int + 1)) =~= uppered(text@.take(i as int)).push(
                to_upper_char(text@[i as int]),
            ));
        }
        i += 1;
    }
    proof {
        assert(text@.take(n as int) =~= text@);
    }
    result
}

/// Builds PascalCase (`start_upper`) or camelCase (`!start_upper`)
/// from a snake_case identifier.
fn build_pascal_from_snake(text: &str, start_upper: bool) -> (r: String)
    ensures
        r@ == pascal_from_snake(text@, start_upper),
{
    let n = text.unicode_len();
    let mut result = String::new();
    let mut upper_next = start_upper;
    let mut i: usize = 0;
    proof {
        assert(text@.skip(0) =~= text@);
        assert(Seq::<char>::empty() + pascal_from_snake(text@, start_upper) =~= pascal_from_snake(
            text@,
            start_upper,
        ));
    }
    while i < n
        invariant
            n == text@.len(),
            i <= n,
            pascal_from_snake(text@, start_upper) == result@ + pascal_from_snake(
                text@.skip(i as int),
                upper_next,
            ),
        decreases n - i,
    {
        let ghost pre = result@;
        let ghost suffix = text@.skip(i as int);
        proof {
            lemma_skip_step(text@, i as int);
        }
        let c = text.get_char(i);
        if c == '_' {
            upper_next = true;
        } else if upper_next {
            push_char(&mut result, upper_char(c));
            upper_next = false;
            proof {
                assert(result@ =~= pre + seq![to_upper_char(c)]);
                assert((pre + seq![to_upper_char(c)]) + pascal_from_snake(
                    text@.skip(i as int + 1),
                    false,
                ) =~= pre + (seq![to_upper_char(c)] + pascal_from_snake(
                    text@.skip(i as int + 1),
                    false,
                )));
            }
        } else {
            push_char(&mut result, c);
            proof {
                assert(result@ =~= pre + seq![c]);
                assert((pre + seq![c]) + pascal_from_snake(text@.skip(i as int + 1), false) =~= pre
                    + (seq![c] + pascal_from_snake(text@.skip(i as int + 1), false)));
            }
        }
        i += 1;
    }
    proof {
        assert(text@.skip(n as int) =~= Seq::<char>::empty());
        assert(result@ + Seq::<char>::empty() =~= result@);
    }
    result
}

/// Builds snake_case (`!screaming`) or SCREAMING_SNAKE_CASE
/// (`screaming`) from a PascalCase identifier.
fn build_snake_from_pascal(text: &str, screaming: bool) -> (r: String)
    ensures
        r@ == snake_like_from_pascal(text@, true, screaming),
{
    let n = text.unicode_len();
    let mut result = String::new();
    let mut first = true;
    let mut i: usize = 0;
    proof {
        assert(text@.skip(0) =~= text@);
        assert(Seq::<char>::empty() + snake_like_from_pascal(text@, true, screaming)
            =~= snake_like_from_pascal(text@, true, screaming));
    }
    while i < n
        invariant
            n == text@.len(),
            i <= n,
            snake_like_from_pascal(text@, true, screaming) == result@ + snake_like_from_pascal(
                text@.skip(i as int),
                first,
                screaming,
            ),
        decreases n - i,
    {
        let ghost pre = result@;
        proof {
            lemma_skip_step(text@, i as int);
        }
        let c = text.get_char(i);
        let mapped = if screaming {
            upper_char(c)
        } else {
            lower_char(c)
        };
        let is_upper = {
            let u: u32 = c as u32;
            65 <= u && u <= 90
        };
        let ghost head: Seq<char> = if is_upper_char(c) && !first {
            seq!['_', if screaming { to_upper_char(c) } else { to_lower_char(c) }]
        } else {
            seq![if screaming { to_upper_char(c) } else { to_lower_char(c) }]
        };
        if is_upper && !first {
            push_char(&mut result, '_');
        }
        push_char(&mut result, mapped);
        proof {
            assert(result@ =~= pre + head);
            assert((pre + head) + snake_like_from_pascal(text@.skip(i as int + 1), false, screaming)
                =~= pre + (head + snake_like_from_pascal(text@.skip(i as int + 1), false, screaming)));
        }
        first = false;
        i += 1;
    }
    proof {
        assert(text@.skip(n as int) =~= Seq::<char>::empty());
        assert(result@ + Seq::<char>::empty() =~= result@);
    }
    result
}

impl RenameRule {
    /// Applies the rename rule to an identifier formatted in PascalCase.
    pub fn apply_to_pascal_case(&self, text: &str, context: IdentifierType) -> (r: String)
        ensures
            r@ == pascal_case_applied(*self, text@, context),
    {
        let n = text.unicode_len();
        if n == 0 {
            return String::new();
        }
        match *self {
            RenameRule::Keep => String::from_str(text),
            RenameRule::GeckoCase => String::from_str(context.to_str()).concat(text),
            RenameRule::LowerCase => map_lower(text),
            RenameRule::UpperCase => map_upper(text),
            RenameRule::PascalCase => String::from_str(text),
            RenameRule::CamelCase => {
                let c = text.get_char(0);
                let mut r = String::new();
                push_char(&mut r, lower_char(c));
                let rest = text.substring_char(1, n);
                r.append(rest);
                proof {
                    assert(r@ =~= seq![to_lower_char(text@[0])] + text@.skip(1));
                }
                r
            },
            RenameRule::SnakeCase => build_snake_from_pascal(text, false),
            RenameRule::ScreamingSnakeCase => build_snake_from_pascal(text, true),
        }
    }

    /// Applies the rename rule to an identifier formatted in snake_case.
    pub fn apply_to_snake_case(&self, text: &str, context: IdentifierType) -> (r: String)
        ensures
            r@ == snake_case_applied(*self, text@, context),
    {
        let n = text.unicode_len();
        if n == 0 {
            return String::new();
        }
        match *self {
            RenameRule::Keep => String::from_str(text),
            RenameRule::GeckoCase => {
                let body = if text.get_char(0) == '_' {
                    let stripped = text.substring_char(1, n);
                    proof {
                        assert(stripped@ =~= text@.skip(1));
                    }
                    build_pascal_from_snake(stripped, true)
                } else {
                    build_pascal_from_snake(text, true)
                };
                String::from_str(context.to_str()).concat(body.as_str())
            },
            RenameRule::LowerCase => map_lower(text),
            RenameRule::UpperCase => map_upper(text),
            RenameRule::PascalCase => build_pascal_from_snake(text, true),
            RenameRule::CamelCase => {
                let p = build_pascal_from_snake(text, true);
                let pn = p.as_str().unicode_len();
                if pn == 0 {
                    p
                } else {
                    let c = p.as_str().get_char(0);
                    let mut r = String::new();
                    push_char(&mut r, lower_char(c));
                    let rest = p.as_str().substring_char(1, pn);
                    r.append(rest);
                    proof {
                        assert(r@ =~= camel_from_snake(text@));
                    }
                    r
                }
            },
            RenameRule::SnakeCase => String::from_str(text),
            RenameRule::ScreamingSnakeCase => map_upper(text),
        }
    }
}

/// The curated alias table: which configuration strings name which
/// rename rule.
pub open spec fn rule_for_alias(s: Seq<char>) -> Option<RenameRule> {
    if s == "none"@ || s == "None"@ {
        Some(RenameRule::Keep)
    } else if s == "mGeckoCase"@ || s == "GeckoCase"@ || s == "gecko_case"@ {
        Some(RenameRule::GeckoCase)
    } else if s == "lowercase"@ || s == "LowerCase"@ || s == "lower_case"@ {
        Some(RenameRule::LowerCase)
    } else if s == "UPPERCASE"@ || s == "UpperCase"@ || s == "upper_case"@ {
        Some(RenameRule::UpperCase)
    } else if s == "PascalCase"@ || s == "pascal_case"@ {
        Some(RenameRule::PascalCase)
    } else if s == "camelCase"@ || s == "CamelCase"@ || s == "camel_case"@ {
        Some(RenameRule::CamelCase)
    } else if s == "snake_case"@ || s == "SnakeCase"@ {
        Some(RenameRule::SnakeCase)
    } else if s == "SCREAMING_SNAKE_CASE"@ || s == "ScreamingSnakeCase"@ || s
        == "screaming_snake_case"@ {
        Some(RenameRule::ScreamingSnakeCase)
    } else {
        None
    }
}

impl RenameRule {
    /// Parses a rule name as it appears in a configuration file; an
    /// unknown name is a diagnostic that quotes the bad input.
    pub fn from_str(s: &str) -> (r: Result<RenameRule, String>)
        ensures
            match r {
                Ok(rule) => rule_for_alias(s@) == Some(rule),
                Err(msg) => rule_for_alias(s@) is None && msg@ == "unrecognized RenameRule: '"@
                    + s@ + "'"@,
            },
    {
        if str_eq_str(s, "none") || str_eq_str(s, "None") {
            Ok(RenameRule::Keep)
        } else if str_eq_str(s, "mGeckoCase") || str_eq_str(s, "GeckoCase") || str_eq_str(
            s,
            "gecko_case",
        ) {
            Ok(RenameRule::GeckoCase)
        } else if str_eq_str(s, "lowercase") || str_eq_str(s, "LowerCase") || str_eq_str(
            s,
            "lower_case",
        ) {
            Ok(RenameRule::LowerCase)
        } else if str_eq_str(s, "UPPERCASE") || str_eq_str(s, "UpperCase") || str_eq_str(
            s,
            "upper_case",
        ) {
            Ok(RenameRule::UpperCase)
        } else if str_eq_str(s, "PascalCase") || str_eq_str(s, "pascal_case") {
            Ok(RenameRule::PascalCase)
        } else if str_eq_str(s, "camelCase") || str_eq_str(s, "CamelCase") || str_eq_str(
            s,
            "camel_case",
        ) {
            Ok(RenameRule::CamelCase)
        } else if str_eq_str(s, "snake_case") || str_eq_str(s, "SnakeCase") {
            Ok(RenameRule::SnakeCase)
        } else if str_eq_str(s, "SCREAMING_SNAKE_CASE") || str_eq_str(s, "ScreamingSnakeCase")
            || str_eq_str(s, "screaming_snake_case") {
            Ok(RenameRule::ScreamingSnakeCase)
        } else {
            Err(String::from_str("unrecognized RenameRule: '").concat(s).concat("'"))
        }
    }
}

impl Default for RenameRule {
    fn default() -> (r: RenameRule)
        ensures
            r == RenameRule::Keep,
    {
        RenameRule::Keep
    }
}

/// The PascalCase conversion never produces an underscore.
proof fn lemma_pascal_from_snake_no_underscore(s: Seq<char>, upper_next: bool)
    ensures
        forall|i: int|
            0 <= i < pascal_from_snake(s, upper_next).len() ==> pascal_from_snake(s, upper_next)[i]
                != '_',
    decreases s.len(),
{
    if s.len() == 0 {
    } else if s[0] == '_' {
        lemma_pascal_from_snake_no_underscore(s.drop_first(), true);
        assert(pascal_from_snake(s, upper_next) == pascal_from_snake(s.drop_first(), true));
    } else {
        lemma_pascal_from_snake_no_underscore(s.drop_first(), false);
        let head = if upper_next {
            to_upper_char(s[0])
        } else {
            s[0]
        };
        let out = pascal_from_snake(s, upper_next);
        let tail = pascal_from_snake(s.drop_first(), false);
        assert(out == seq![head] + tail);
        assert(head != '_');
        assert forall|i: int| 0 <= i < out.len() implies out[i] != '_' by {
            if i == 0 {
                assert(out[0] == head);
            } else {
                assert(out[i] == tail[i - 1]);
            }
        }
    }
}

/// The first character of a PascalCase conversion is already uppercase.
proof fn lemma_pascal_from_snake_first_fixed(s: Seq<char>)
    ensures
        pascal_from_snake(s, true).len() > 0 ==> to_upper_char(pascal_from_snake(s, true)[0])
            == pascal_from_snake(s, true)[0],
    decreases s.len(),
{
    if s.len() == 0 {
    } else if s[0] == '_' {
        lemma_pascal_from_snake_first_fixed(s.drop_first());
    }
}

/// An identifier without underscores is unchanged by the PascalCase
/// conversion when nothing asks for its first character to be
/// uppercased.
proof fn lemma_pascal_identity_tail(u: Seq<char>)
    requires
        forall|i: int| 0 <= i < u.len() ==> u[i] != '_',
    ensures
        pascal_from_snake(u, false) == u,
    decreases u.len(),
{
    if u.len() == 0 {
        assert(u =~= Seq::<char>::empty());
    } else {
        lemma_pascal_identity_tail(u.drop_first());
        assert(seq![u[0]] + u.drop_first() =~= u);
    }
}

/// Rename purity: an identifier that is already PascalCase — its first
/// character is not a lowercase letter and it contains no underscore —
/// is a fixed point of the snake-to-PascalCase conversion.
pub proof fn lemma_pascal_fixed_on_pascal(t: Seq<char>)
    requires
        forall|i: int| 0 <= i < t.len() ==> t[i] != '_',
        t.len() > 0 ==> to_upper_char(t[0]) == t[0],
    ensures
        pascal_from_snake(t, true) == t,
{
    if t.len() == 0 {
        assert(t =~= Seq::<char>::empty());
    } else {
        lemma_pascal_identity_tail(t.drop_first());
        assert(seq![to_upper_char(t[0])] + t.drop_first() =~= t);
    }
}

/// Rename purity: the snake-to-PascalCase conversion is idempotent —
/// applied to its own output it changes nothing.
pub proof fn lemma_pascal_from_snake_idempotent(s: Seq<char>)
    ensures
        pascal_from_snake(pascal_from_snake(s, true), true) == pascal_from_snake(s, true),
{
    lemma_pascal_from_snake_no_underscore(s, true);
    lemma_pascal_from_snake_first_fixed(s);
    lemma_pascal_fixed_on_pascal(pascal_from_snake(s, true));
}

/// A well-formed snake_case identifier for the round trip: no
/// uppercase characters, no leading underscore, and every underscore
/// followed by a lowercase letter.
pub open spec fn snake_round_trip_safe(s: Seq<char>) -> bool {
    &&& forall|i: int| 0 <= i < s.len() ==> !is_upper_char(s[i])
    &&& forall|i: int| 0 <= i < s.len() && #[trigger] s[i] == '_' ==> i + 1 < s.len() && is_lower_char(
        s[i + 1],
    )
    &&& (s.len() > 0 ==> s[0] != '_')
}

/// Helper for the snake-then-Pascal round trip, away from the first
/// character.
proof fn lemma_snake_pascal_rt_rest(s: Seq<char>)
    requires
        forall|i: int| 0 <= i < s.len() ==> !is_upper_char(s[i]),
        forall|i: int| 0 <= i < s.len() && #[trigger] s[i] == '_' ==> i + 1 < s.len() && is_lower_char(
            s[i + 1],
        ),
    ensures
        snake_like_from_pascal(pascal_from_snake(s, false), false, false) == s,
    decreases s.len(),
{
    if s.len() == 0 {
        assert(s =~= Seq::<char>::empty());
    } else if s[0] == '_' {
        let d = s[1];
        let r = s.skip(2);
        assert(is_lower_char(d));
        assert(s.drop_first()[0] == d);
        assert(s.drop_first().drop_first() =~= r);
        assert(pascal_from_snake(s, false) == pascal_from_snake(s.drop_first(), true));
        assert(d != '_');
        assert(pascal_from_snake(s.drop_first(), true) == seq![to_upper_char(d)]
            + pascal_from_snake(s.drop_first().drop_first(), false));
        assert(pascal_from_snake(s, false) == seq![to_upper_char(d)] + pascal_from_snake(r, false));
        assert forall|i: int| 0 <= i < r.len() implies !is_upper_char(r[i]) by {
            assert(r[i] == s[i + 2]);
        }
        assert forall|i: int| 0 <= i < r.len() && #[trigger] r[i] == '_' implies i + 1 < r.len()
            && is_lower_char(r[i + 1]) by {
            assert(r[i] == s[i + 2]);
            assert(s[i + 3] == r[i + 1]);
        }
        lemma_snake_pascal_rt_rest(r);
        let tail = pascal_from_snake(r, false);
        let whole = seq![to_upper_char(d)] + tail;
        assert(whole.drop_first() =~= tail);
        assert(whole[0] == to_upper_char(d));
        assert(is_upper_char(whole[0]));
        assert(snake_like_from_pascal(whole, false, false) == seq![
            '_',
            to_lower_char(whole[0]),
        ] + snake_like_from_pascal(whole.drop_first(), false, false));
        assert(snake_like_from_pascal(whole.drop_first(), false, false)
            == snake_like_from_pascal(tail, false, false));
        assert(snake_like_from_pascal(tail, false, false) == r);
        crate::text::lemma_lower_of_upper(d);
        assert(to_lower_char(to_upper_char(d)) == d);
        assert(seq!['_', to_lower_char(to_upper_char(d))] + s.skip(2) =~= s);
    } else {
        let r = s.drop_first();
        assert forall|i: int| 0 <= i < r.len() implies !is_upper_char(r[i]) by {
            assert(r[i] == s[i + 1]);
        }
        assert forall|i: int| 0 <= i < r.len() && #[trigger] r[i] == '_' implies i + 1 < r.len()
            && is_lower_char(r[i + 1]) by {
            assert(r[i] == s[i + 1]);
            assert(s[i + 2] == r[i + 1]);
        }
        lemma_snake_pascal_rt_rest(r);
        let tail = pascal_from_snake(r, false);
        assert((seq![s[0]] + tail).drop_first() =~= tail);
        assert(snake_like_from_pascal(seq![s[0]] + tail, false, false) == seq![to_lower_char(s[0])]
            + s.drop_first());
        assert(seq![to_lower_char(s[0])] + s.drop_first() =~= s);
    }
}

/// Rename round trip: SnakeCase applied to the PascalCase result of a
/// well-formed snake identifier yields the original identifier.
pub proof fn lemma_snake_pascal_round_trip(s: Seq<char>)
    requires
        snake_round_trip_safe(s),
    ensures
        snake_like_from_pascal(pascal_from_snake(s, true), true, false) == s,
{
    if s.len() == 0 {
        assert(s =~= Seq::<char>::empty());
    } else {
        let r = s.drop_first();
        assert forall|i: int| 0 <= i < r.len() implies !is_upper_char(r[i]) by {
            assert(r[i] == s[i + 1]);
        }
        assert forall|i: int| 0 <= i < r.len() && #[trigger] r[i] == '_' implies i + 1 < r.len()
            && is_lower_char(r[i + 1]) by {
            assert(r[i] == s[i + 1]);
            assert(s[i + 2] == r[i + 1]);
        }
        lemma_snake_pascal_rt_rest(r);
        let tail = pascal_from_snake(r, false);
        let whole = seq![to_upper_char(s[0])] + tail;
        assert(whole.drop_first() =~= tail);
        assert(whole[0] == to_upper_char(s[0]));
        assert(snake_like_from_pascal(whole, true, false) == seq![to_lower_char(whole[0])]
            + snake_like_from_pascal(whole.drop_first(), false, false));
        assert(snake_like_from_pascal(whole.drop_first(), false, false)
            == snake_like_from_pascal(tail, false, false));
        assert(snake_like_from_pascal(tail, false, false) == r);
        crate::text::lemma_lower_of_upper(s[0]);
        assert(to_lower_char(to_upper_char(s[0])) == s[0]);
        assert(seq![to_lower_char(to_upper_char(s[0]))] + s.drop_first() =~= s);
    }
}

/// Helper for the Pascal-then-snake round trip, away from the first
/// character.
proof fn lemma_pascal_snake_rt_rest(t: Seq<char>)
    requires
        forall|i: int| 0 <= i < t.len() ==> t[i] != '_',
    ensures
        pascal_from_snake(snake_like_from_pascal(t, false, false), false) == t,
    decreases t.len(),
{
    if t.len() == 0 {
        assert(t =~= Seq::<char>::empty());
    } else {
        let r = t.drop_first();
        assert forall|i: int| 0 <= i < r.len() implies r[i] != '_' by {
            assert(r[i] == t[i + 1]);
        }
        lemma_pascal_snake_rt_rest(r);
        let tail = snake_like_from_pascal(r, false, false);
        if is_upper_char(t[0]) {
            assert(snake_like_from_pascal(t, false, false) == seq!['_', to_lower_char(t[0])]
                + tail);
            assert((seq!['_', to_lower_char(t[0])] + tail).drop_first() =~= seq![to_lower_char(
                t[0],
            )] + tail);
            assert((seq![to_lower_char(t[0])] + tail).drop_first() =~= tail);
            let x = to_lower_char(t[0]);
            let whole = seq!['_', x] + tail;
            assert(whole[0] == '_');
            assert(whole.drop_first() =~= seq![x] + tail);
            assert(pascal_from_snake(whole, false) == pascal_from_snake(seq![x] + tail, true));
            assert((seq![x] + tail)[0] == x);
            assert((seq![x] + tail).drop_first() =~= tail);
            assert(x != '_');
            assert(pascal_from_snake(seq![x] + tail, true) == seq![to_upper_char(x)]
                + pascal_from_snake((seq![x] + tail).drop_first(), false));
            assert(pascal_from_snake((seq![x] + tail).drop_first(), false) == pascal_from_snake(
                tail,
                false,
            ));
            crate::text::lemma_upper_of_lower(t[0]);
            assert(to_upper_char(x) == t[0]);
            assert(seq![t[0]] + t.drop_first() =~= t);
        } else {
            assert(snake_like_from_pascal(t, false, false) == seq![to_lower_char(t[0])] + tail);
            assert(to_lower_char(t[0]) == t[0]);
            assert((seq![t[0]] + tail).drop_first() =~= tail);
            assert(pascal_from_snake(seq![t[0]] + tail, false) == seq![t[0]] + t.drop_first());
            assert(seq![t[0]] + t.drop_first() =~= t);
        }
    }
}

/// Rename round trip, the other direction: PascalCase applied to the
/// snake_case result of an underscore-free identifier yields the
/// original up to the case of its leading character.
pub proof fn lemma_pascal_snake_round_trip(t: Seq<char>)
    requires
        forall|i: int| 0 <= i < t.len() ==> t[i] != '_',
        t.len() > 0,
    ensures
        pascal_from_snake(snake_like_from_pascal(t, true, false), true) == seq![
            to_upper_char(t[0]),
        ] + t.skip(1),
{
    let r = t.drop_first();
    assert forall|i: int| 0 <= i < r.len() implies r[i] != '_' by {
        assert(r[i] == t[i + 1]);
    }
    lemma_pascal_snake_rt_rest(r);
    let tail = snake_like_from_pascal(r, false, false);
    assert(snake_like_from_pascal(t, true, false) == seq![to_lower_char(t[0])] + tail);
    assert(to_lower_char(t[0]) != '_');
    assert((seq![to_lower_char(t[0])] + tail).drop_first() =~= tail);
    assert(pascal_from_snake(seq![to_lower_char(t[0])] + tail, true) == seq![
        to_upper_char(to_lower_char(t[0])),
    ] + t.drop_first());
    assert(to_upper_char(to_lower_char(t[0])) == to_upper_char(t[0]));
    assert(t.drop_first() =~= t.skip(1));
}

/// Rename purity at the rule level: applying the PascalCase rule to
/// its own output changes nothing, whatever the role.
pub proof fn lemma_pascal_rule_idempotent(s: Seq<char>, role: IdentifierType)
    ensures
        snake_case_applied(
            RenameRule::PascalCase,
            snake_case_applied(RenameRule::PascalCase, s, role),
            role,
        ) == snake_case_applied(RenameRule::PascalCase, s, role),
{
    if s.len() == 0 {
    } else {
        let t = pascal_from_snake(s, true);
        lemma_pascal_from_snake_idempotent(s);
        if t.len() == 0 {
            assert(t =~= Seq::<char>::empty());
        }
    }
}

/// The rename round trip at the rule level: the SnakeCase rule undoes
/// the PascalCase rule on a well-formed snake identifier.
pub proof fn lemma_rule_round_trip_snake(s: Seq<char>, role1: IdentifierType, role2: IdentifierType)
    requires
        snake_round_trip_safe(s),
    ensures
        pascal_case_applied(
            RenameRule::SnakeCase,
            snake_case_applied(RenameRule::PascalCase, s, role1),
            role2,
        ) == s,
{
    if s.len() == 0 {
        assert(s =~= Seq::<char>::empty());
    } else {
        let t = pascal_from_snake(s, true);
        lemma_snake_pascal_round_trip(s);
        assert(s[0] != '_');
        assert(t.len() > 0);
    }
}

/// The rename round trip at the rule level, other direction: the
/// PascalCase rule undoes the SnakeCase rule up to the case of the
/// leading character.
pub proof fn lemma_rule_round_trip_pascal(
    t: Seq<char>,
    role1: IdentifierType,
    role2: IdentifierType,
)
    requires
        forall|i: int| 0 <= i < t.len() ==> t[i] != '_',
        t.len() > 0,
    ensures
        snake_case_applied(
            RenameRule::PascalCase,
            pascal_case_applied(RenameRule::SnakeCase, t, role1),
            role2,
        ) == seq![to_upper_char(t[0])] + t.skip(1),
{
    let u = snake_like_from_pascal(t, true, false);
    lemma_pascal_snake_round_trip(t);
    assert(u.len() > 0);
}

} // verus!
