//! Package-manager detection: which manager governs a project, decided from
//! ordered signals (invoking-tool string, manifest field, tool artifacts,
//! lockfile ages), with full provenance.
use vstd::prelude::*;

use crate::text::{chars_eq, chars_to_string, is_space, is_space_char, split_chars, split_spec, to_chars};
use vstd::string::StringExecFns;

verus! {

#[derive(Debug, Clone, Copy, PartialEq, Eq, Structural)]
pub enum PackageManager {
    Npm,
    YarnClassic,
    YarnBerry,
    Pnpm,
    Bun,
    Unknown,
}

#[derive(Debug, Clone, PartialEq)]
pub enum DetectionSource {
    PackageJsonField,
    Lockfile(String),
    YarnArtifacts(String),
    PnpmArtifacts(String),
    UserAgent(String),
    Heuristic,
}

#[derive(Debug, Clone)]
pub struct Detection {
    pub manager: PackageManager,
    pub version_hint: Option<String>,
    pub source: DetectionSource,
    pub project_root: String,
}

#[derive(Debug, Clone, PartialEq)]
pub enum DetectError {
    NoProject(String),
    Io(String),
    BadJson(String, String),
}

pub open spec fn is_digit(c: char) -> bool {
    '0' <= c && c <= '9'
}

pub open spec fn all_digits(s: Seq<char>) -> bool {
    forall|i: int| 0 <= i < s.len() ==> is_digit(#[trigger] s[i])
}

/// The value of a digit string, most significant digit first.
pub open spec fn digits_val(s: Seq<char>) -> int
    decreases s.len(),
{
    if s.len() == 0 {
        0
    } else {
        digits_val(s.subrange(0, s.len() - 1)) * 10 + (s[s.len() - 1] as int - 48)
    }
}

/// The digits of a parse, after an optional leading plus sign.
pub open spec fn number_body(s: Seq<char>) -> Seq<char> {
    if s.len() > 0 && s[0] == '+' {
        s.subrange(1, s.len() as int)
    } else {
        s
    }
}

/// What parsing a version component yields: the numeric value when the text
/// is a well-formed number that fits, and zero for anything else.
pub open spec fn spec_parse_u64_or_zero(s: Seq<char>) -> u64 {
    let b = number_body(s);
    if b.len() > 0 && all_digits(b) && digits_val(b) <= u64::MAX {
        digits_val(b) as u64
    } else {
        0
    }
}

proof fn lemma_digits_val_nonneg(s: Seq<char>)
    requires
        all_digits(s),
    ensures
        digits_val(s) >= 0,
    decreases s.len(),
{
    if s.len() > 0 {
        let pre = s.subrange(0, s.len() - 1);
        assert(all_digits(pre));
        lemma_digits_val_nonneg(pre);
    }
}

/// Parse a dotted-version component leniently: a malformed or
/// overflowing component counts as zero.
pub fn parse_u64_or_zero(v: &Vec<char>) -> (r: u64)
    ensures
        r == spec_parse_u64_or_zero(v@),
{
    let ghost b = number_body(v@);
    let start: usize = if v.len() > 0 && v[0] == '+' {
        1
    } else {
        0
    };
    proof {
        assert(b =~= v@.subrange(start as int, v@.len() as int));
    }
    if v.len() == start {
        return 0;
    }
    let mut acc: u64 = 0;
    let mut over: bool = false;
    let mut i: usize = start;
    proof {
        assert(b.subrange(0, 0) =~= Seq::<char>::empty());
    }
    while i < v.len()
        invariant
            v.len() == v@.len(),
            start <= i <= v@.len(),
            start <= 1,
            b == number_body(v@),
            b == v@.subrange(start as int, v@.len() as int),
            all_digits(b.subrange(0, i - start)),
            !over ==> acc == digits_val(b.subrange(0, i - start)),
            over ==> digits_val(b.subrange(0, i - start)) > u64::MAX,
        decreases v@.len() - i,
    {
        let c = v[i];
        proof {
            assert(b[i - start] == v@[i as int]);
        }
        if !('0' <= c && c <= '9') {
            proof {
                assert(!is_digit(b[i - start]));
                assert(!all_digits(b));
                assert(number_body(v@) == b);
                assert(spec_parse_u64_or_zero(v@) == 0);
            }
            return 0;
        }
        let d: u64 = (c as u64) - 48;
        let ghost pre = b.subrange(0, i - start);
        let ghost cur = b.subrange(0, i + 1 - start);
        proof {
            assert(cur.subrange(0, cur.len() - 1) =~= pre);
            assert(cur[cur.len() - 1] == v@[i as int]);
            assert(digits_val(cur) == digits_val(pre) * 10 + d);
            lemma_digits_val_nonneg(pre);
        }
        if over {
            proof {
                assert(digits_val(cur) > u64::MAX);
            }
        } else if acc > 1844674407370955161 {
            over = true;
            proof {
                assert(digits_val(pre) * 10 > u64::MAX);
            }
        } else {
            let shifted: u64 = acc * 10;
            if shifted > u64::MAX - d {
                over = true;
            } else {
                acc = shifted + d;
            }
        }
        i = i + 1;
    }
    proof {
        assert(b.subrange(0, i - start) =~= b);
    }
    if over {
        0
    } else {
        acc
    }
}

/// The first three dot-separated components of a version string, each parsed
/// leniently, missing components counting as zero.
pub open spec fn spec_version_triple(s: Seq<char>) -> (u64, u64, u64) {
    let parts = split_spec(s, '.');
    let a = spec_parse_u64_or_zero(parts[0]);
    let b = if parts.len() > 1 {
        spec_parse_u64_or_zero(parts[1])
    } else {
        0
    };
    let c = if parts.len() > 2 {
        spec_parse_u64_or_zero(parts[2])
    } else {
        0
    };
    (a, b, c)
}

/// Whether the version string, read as up to three dotted numeric components,
/// is at least `maj.min.pat` in lexicographic order.
pub open spec fn spec_semver_gte(s: Seq<char>, maj: u64, min: u64, pat: u64) -> bool {
    let t = spec_version_triple(s);
    t.0 > maj || (t.0 == maj && (t.1 > min || (t.1 == min && t.2 >= pat)))
}

/// Compare a dotted version string against a threshold; partial versions such
/// as a bare major are read with the missing components as zero.
pub fn is_semver_gte(ver: &str, maj: u64, min: u64, pat: u64) -> (r: bool)
    ensures
        r == spec_semver_gte(ver@, maj, min, pat),
{
    let chars = to_chars(ver);
    let parts = split_chars(&chars, '.');
    proof {
        crate::text::lemma_split_nonempty(ver@, '.');
        assert(parts.deep_view()[0] == parts@[0].deep_view());
        assert(parts@[0].deep_view() =~= parts@[0]@);
    }
    let vmaj = parse_u64_or_zero(&parts[0]);
    let vmin = if parts.len() > 1 {
        proof {
            assert(parts.deep_view()[1] == parts@[1].deep_view());
            assert(parts@[1].deep_view() =~= parts@[1]@);
        }
        parse_u64_or_zero(&parts[1])
    } else {
        0
    };
    let vpat = if parts.len() > 2 {
        proof {
            assert(parts.deep_view()[2] == parts@[2].deep_view());
            assert(parts@[2].deep_view() =~= parts@[2]@);
        }
        parse_u64_or_zero(&parts[2])
    } else {
        0
    };
    if vmaj != maj {
        vmaj > maj
    } else if vmin != min {
        vmin > min
    } else {
        vpat >= pat
    }
}

pub open spec fn is_alpha(c: char) -> bool {
    ('a' <= c && c <= 'z') || ('A' <= c && c <= 'Z')
}

/// The characters admitted in the version part of a declared manager string.
pub open spec fn is_word_char(c: char) -> bool {
    is_alpha(c) || is_digit(c) || c == '_' || c == '.' || c == '-'
}

pub open spec fn all_alpha(s: Seq<char>) -> bool {
    forall|i: int| 0 <= i < s.len() ==> is_alpha(#[trigger] s[i])
}

pub open spec fn all_word_chars(s: Seq<char>) -> bool {
    forall|i: int| 0 <= i < s.len() ==> is_word_char(#[trigger] s[i])
}

pub open spec fn lower_char(c: char) -> char {
    if 'A' <= c && c <= 'Z' {
        ((c as u32) + 32) as char
    } else {
        c
    }
}

/// ASCII lowercasing, character by character.
pub open spec fn ascii_lower(s: Seq<char>) -> Seq<char> {
    Seq::new(s.len(), |i: int| lower_char(s[i]))
}

fn lower_char_exec(c: char) -> (r: char)
    ensures
        r == lower_char(c),
{
    match c {
        'A' => 'a',
        'B' => 'b',
        'C' => 'c',
        'D' => 'd',
        'E' => 'e',
        'F' => 'f',
        'G' => 'g',
        'H' => 'h',
        'I' => 'i',
        'J' => 'j',
        'K' => 'k',
        'L' => 'l',
        'M' => 'm',
        'N' => 'n',
        'O' => 'o',
        'P' => 'p',
        'Q' => 'q',
        'R' => 'r',
        'S' => 's',
        'T' => 't',
        'U' => 'u',
        'V' => 'v',
        'W' => 'w',
        'X' => 'x',
        'Y' => 'y',
        'Z' => 'z',
        _ => c,
    }
}

fn ascii_lower_chars(v: &Vec<char>) -> (r: Vec<char>)
    ensures
        r@ == ascii_lower(v@),
{
    let mut r: Vec<char> = Vec::new();
    let mut i: usize = 0;
    while i < v.len()
        invariant
            v.len() == v@.len(),
            i <= v@.len(),
            r@.len() == i,
            forall|k: int| 0 <= k < i ==> r@[k] == lower_char(v@[k]),
        decreases v@.len() - i,
    {
        r.push(lower_char_exec(v[i]));
        i = i + 1;
    }
    proof {
        assert(r@ =~= ascii_lower(v@));
    }
    r
}

/// The text with leading whitespace removed.
pub open spec fn skip_spaces(s: Seq<char>) -> Seq<char>
    decreases s.len(),
{
    if s.len() > 0 && is_space(s[0]) {
        skip_spaces(s.subrange(1, s.len() as int))
    } else {
        s
    }
}

/// The run of non-whitespace characters at the front of the text.
pub open spec fn take_until_space(s: Seq<char>) -> Seq<char>
    decreases s.len(),
{
    if s.len() == 0 || is_space(s[0]) {
        Seq::<char>::empty()
    } else {
        seq![s[0]] + take_until_space(s.subrange(1, s.len() as int))
    }
}

/// The first whitespace-separated token of the text.
pub open spec fn first_token(s: Seq<char>) -> Seq<char> {
    take_until_space(skip_spaces(s))
}

proof fn lemma_skip_spaces_at(s: Seq<char>, a: int)
    requires
        0 <= a <= s.len(),
        forall|j: int| 0 <= j < a ==> is_space(s[j]),
        a == s.len() || !is_space(s[a]),
    ensures
        skip_spaces(s) == s.subrange(a, s.len() as int),
    decreases a,
{
    if a == 0 {
        assert(s.subrange(0, s.len() as int) =~= s);
    } else {
        let suf = s.subrange(1, s.len() as int);
        lemma_skip_spaces_at(suf, a - 1);
        assert(suf.subrange(a - 1, suf.len() as int) =~= s.subrange(a, s.len() as int));
    }
}

proof fn lemma_take_until_space_at(s: Seq<char>, e: int)
    requires
        0 <= e <= s.len(),
        forall|j: int| 0 <= j < e ==> !is_space(s[j]),
        e == s.len() || is_space(s[e]),
    ensures
        take_until_space(s) == s.subrange(0, e),
    decreases e,
{
    if e == 0 {
        assert(s.subrange(0, 0) =~= Seq::<char>::empty());
    } else {
        let suf = s.subrange(1, s.len() as int);
        lemma_take_until_space_at(suf, e - 1);
        assert(seq![s[0]] + suf.subrange(0, e - 1) =~= s.subrange(0, e));
    }
}

/// What the invoking-tool string yields: its first token read as
/// `name/version`, the name lowercased and matched against the known
/// managers, yarn's flavour decided by the version's major component.
pub open spec fn spec_parse_user_agent(s: Seq<char>) -> Option<(PackageManager, Option<Seq<char>>)> {
    let tok = first_token(s);
    let parts = split_spec(tok, '/');
    if parts.len() < 2 {
        Option::None
    } else {
        let name = ascii_lower(parts[0]);
        let ver = parts[1];
        if name == "pnpm"@ {
            Option::Some((PackageManager::Pnpm, Option::Some(ver)))
        } else if name == "yarn"@ {
            if spec_semver_gte(ver, 2, 0, 0) {
                Option::Some((PackageManager::YarnBerry, Option::Some(ver)))
            } else {
                Option::Some((PackageManager::YarnClassic, Option::Some(ver)))
            }
        } else if name == "npm"@ {
            Option::Some((PackageManager::Npm, Option::Some(ver)))
        } else if name == "bun"@ {
            Option::Some((PackageManager::Bun, Option::Some(ver)))
        } else {
            Option::None
        }
    }
}

/// Read the invoking tool's `name/version` token, if the string leads with a
/// recognizable one; unrecognized names yield nothing rather than a guess.
pub fn parse_user_agent(ua: &str) -> (r: Option<(PackageManager, Option<String>)>)
    ensures
        match r {
            Option::Some(p) => match p.1 {
                Option::Some(vs) => spec_parse_user_agent(ua@) == Option::Some(
                    (p.0, Option::Some(vs@)),
                ),
                Option::None => spec_parse_user_agent(ua@) == Option::Some(
                    (p.0, Option::None::<Seq<char>>),
                ),
            },
            Option::None => spec_parse_user_agent(ua@) is None,
        },
{
    let chars = to_chars(ua);
    let mut a: usize = 0;
    while a < chars.len() && is_space_char(chars[a])
        invariant
            chars.len() == chars@.len(),
            a <= chars@.len(),
            forall|j: int| 0 <= j < a ==> is_space(chars@[j]),
        decreases chars@.len() - a,
    {
        a = a + 1;
    }
    let mut e: usize = a;
    while e < chars.len() && !is_space_char(chars[e])
        invariant
            chars.len() == chars@.len(),
            a <= e <= chars@.len(),
            forall|j: int| a <= j < e ==> !is_space(chars@[j]),
        decreases chars@.len() - e,
    {
        e = e + 1;
    }
    let ghost rest = chars@.subrange(a as int, chars@.len() as int);
    proof {
        lemma_skip_spaces_at(chars@, a as int);
        assert forall|j: int| 0 <= j < e - a implies !is_space(rest[j]) by {
            assert(rest[j] == chars@[a + j]);
        }
        if e < chars@.len() {
            assert(rest[e - a] == chars@[e as int]);
        }
        lemma_take_until_space_at(rest, e - a);
        assert(rest.subrange(0, e - a) =~= chars@.subrange(a as int, e as int));
    }
    let mut tok: Vec<char> = Vec::new();
    let mut i: usize = a;
    while i < e
        invariant
            chars.len() == chars@.len(),
            a <= i <= e <= chars@.len(),
            tok@ == chars@.subrange(a as int, i as int),
        decreases e - i,
    {
        tok.push(chars[i]);
        i = i + 1;
        proof {
            assert(tok@ =~= chars@.subrange(a as int, i as int));
        }
    }
    proof {
        assert(tok@ == first_token(ua@));
    }
    let parts = split_chars(&tok, '/');
    if parts.len() < 2 {
        return None;
    }
    proof {
        assert(parts.deep_view()[0] == parts@[0].deep_view());
        assert(parts@[0].deep_view() =~= parts@[0]@);
        assert(parts.deep_view()[1] == parts@[1].deep_view());
        assert(parts@[1].deep_view() =~= parts@[1]@);
    }
    let name = ascii_lower_chars(&parts[0]);
    let ver = chars_to_string(&parts[1]);
    if chars_eq(&name, &to_chars("pnpm")) {
        Some((PackageManager::Pnpm, Some(ver)))
    } else if chars_eq(&name, &to_chars("yarn")) {
        let berry = is_semver_gte(ver.as_str(), 2, 0, 0);
        if berry {
            Some((PackageManager::YarnBerry, Some(ver)))
        } else {
            Some((PackageManager::YarnClassic, Some(ver)))
        }
    } else if chars_eq(&name, &to_chars("npm")) {
        Some((PackageManager::Npm, Some(ver)))
    } else if chars_eq(&name, &to_chars("bun")) {
        Some((PackageManager::Bun, Some(ver)))
    } else {
        None
    }
}

/// Whether a declared manager string is well formed: an alphabetic name, one
/// separator, then a version of word characters, dots and dashes.
pub open spec fn manager_field_wf(s: Seq<char>) -> bool {
    let parts = split_spec(s, '@');
    parts.len() == 2 && parts[0].len() >= 1 && all_alpha(parts[0]) && parts[1].len() >= 1
        && all_word_chars(parts[1])
}

/// What a declared manager string maps to: a well-formed declaration whose
/// lowercased name is one of the known managers, with yarn's flavour decided
/// by its version's major component; a malformed declaration, and a
/// well-formed one naming no known manager, are no match and detection
/// falls through.
pub open spec fn spec_manager_field(s: Seq<char>) -> Option<(PackageManager, Seq<char>)> {
    if !manager_field_wf(s) {
        Option::None
    } else {
        let parts = split_spec(s, '@');
        let name = ascii_lower(parts[0]);
        let ver = parts[1];
        if name == "pnpm"@ {
            Option::Some((PackageManager::Pnpm, ver))
        } else if name == "npm"@ {
            Option::Some((PackageManager::Npm, ver))
        } else if name == "bun"@ {
            Option::Some((PackageManager::Bun, ver))
        } else if name == "yarn"@ {
            if spec_semver_gte(ver, 2, 0, 0) {
                Option::Some((PackageManager::YarnBerry, ver))
            } else {
                Option::Some((PackageManager::YarnClassic, ver))
            }
        } else {
            Option::None
        }
    }
}

fn all_alpha_exec(v: &Vec<char>) -> (r: bool)
    ensures
        r == all_alpha(v@),
{
    let mut i: usize = 0;
    while i < v.len()
        invariant
            v.len() == v@.len(),
            i <= v@.len(),
            forall|k: int| 0 <= k < i ==> is_alpha(#[trigger] v@[k]),
        decreases v@.len() - i,
    {
        let c = v[i];
        if !(('a' <= c && c <= 'z') || ('A' <= c && c <= 'Z')) {
            return false;
        }
        i = i + 1;
    }
    true
}

fn all_word_chars_exec(v: &Vec<char>) -> (r: bool)
    ensures
        r == all_word_chars(v@),
{
    let mut i: usize = 0;
    while i < v.len()
        invariant
            v.len() == v@.len(),
            i <= v@.len(),
            forall|k: int| 0 <= k < i ==> is_word_char(#[trigger] v@[k]),
        decreases v@.len() - i,
    {
        let c = v[i];
        if !(('a' <= c && c <= 'z') || ('A' <= c && c <= 'Z') || ('0' <= c && c <= '9') || c == '_'
            || c == '.' || c == '-') {
            return false;
        }
        i = i + 1;
    }
    true
}

/// Read a manifest-declared `name@version` manager string; anything not in
/// that exact shape, or naming no known manager, is no match.
pub fn parse_manager_field(s: &str) -> (r: Option<(PackageManager, String)>)
    ensures
        match r {
            Option::Some(p) => spec_manager_field(s@) == Option::Some((p.0, p.1@)),
            Option::None => spec_manager_field(s@) is None,
        },
{
    let chars = to_chars(s);
    let parts = split_chars(&chars, '@');
    if parts.len() != 2 {
        return None;
    }
    proof {
        assert(parts.deep_view()[0] == parts@[0].deep_view());
        assert(parts@[0].deep_view() =~= parts@[0]@);
        assert(parts.deep_view()[1] == parts@[1].deep_view());
        assert(parts@[1].deep_view() =~= parts@[1]@);
    }
    let name_raw = &parts[0];
    let ver_chars = &parts[1];
    if name_raw.len() == 0 || ver_chars.len() == 0 {
        return None;
    }
    if !all_alpha_exec(name_raw) || !all_word_chars_exec(ver_chars) {
        return None;
    }
    let name = ascii_lower_chars(name_raw);
    let ver = chars_to_string(ver_chars);
    if chars_eq(&name, &to_chars("pnpm")) {
        Some((PackageManager::Pnpm, ver))
    } else if chars_eq(&name, &to_chars("npm")) {
        Some((PackageManager::Npm, ver))
    } else if chars_eq(&name, &to_chars("bun")) {
        Some((PackageManager::Bun, ver))
    } else if chars_eq(&name, &to_chars("yarn")) {
        if is_semver_gte(ver.as_str(), 2, 0, 0) {
            Some((PackageManager::YarnBerry, ver))
        } else {
            Some((PackageManager::YarnClassic, ver))
        }
    } else {
        None
    }
}

/// A manifest-declared string naming yarn resolves to the Berry flavour
/// exactly when its version is at least 2.0.0, and to Classic exactly when
/// it is below; a string that is not in `name@version` shape never matches,
/// and neither does a well-formed one naming no known manager — both fall
/// through to the later detection steps.
pub proof fn lemma_yarn_field_split(s: Seq<char>)
    ensures
        manager_field_wf(s) && ascii_lower(split_spec(s, '@')[0]) == "yarn"@ ==> {
            let ver = split_spec(s, '@')[1];
            &&& spec_manager_field(s) == Option::Some(
                (
                    if spec_semver_gte(ver, 2, 0, 0) {
                        PackageManager::YarnBerry
                    } else {
                        PackageManager::YarnClassic
                    },
                    ver,
                ),
            )
            &&& (spec_manager_field(s)->Some_0.0 == PackageManager::YarnBerry <==> spec_semver_gte(
                ver,
                2,
                0,
                0,
            ))
        },
        !manager_field_wf(s) ==> spec_manager_field(s) is None,
        manager_field_wf(s) && ascii_lower(split_spec(s, '@')[0]) != "pnpm"@ && ascii_lower(
            split_spec(s, '@')[0],
        ) != "npm"@ && ascii_lower(split_spec(s, '@')[0]) != "bun"@ && ascii_lower(
            split_spec(s, '@')[0],
        ) != "yarn"@ ==> spec_manager_field(s) is None,
{
    if manager_field_wf(s) && ascii_lower(split_spec(s, '@')[0]) == "yarn"@ {
        reveal_strlit("yarn");
        reveal_strlit("pnpm");
        reveal_strlit("npm");
        reveal_strlit("bun");
        let nm = ascii_lower(split_spec(s, '@')[0]);
        assert(nm[0] == 'y' && "pnpm"@[0] == 'p' && "bun"@[0] == 'b');
        assert(nm.len() == 4 && "npm"@.len() == 3);
        assert(nm != "pnpm"@ && nm != "npm"@ && nm != "bun"@);
    }
}

/// A lockfile found next to the manifest, with its modification time in
/// nanoseconds since the epoch (zero where the time cannot be read).
#[derive(Debug, Clone)]
pub struct LockfileCandidate {
    pub manager: PackageManager,
    pub path: String,
    pub modified: u128,
}

/// The index of the greatest value, the last one on ties.
pub open spec fn last_max_index(s: Seq<u128>) -> int
    decreases s.len(),
{
    if s.len() <= 1 {
        0
    } else {
        let r = last_max_index(s.subrange(0, s.len() - 1));
        if s[s.len() - 1] >= s[r] {
            s.len() - 1
        } else {
            r
        }
    }
}

/// The chosen index holds a maximal value and no later candidate ties it:
/// the tie between equally old lockfiles goes to the one listed last.
pub proof fn lemma_last_max_index(s: Seq<u128>)
    requires
        s.len() > 0,
    ensures
        0 <= last_max_index(s) < s.len(),
        forall|k: int| 0 <= k < s.len() ==> #[trigger] s[k] <= s[last_max_index(s)],
        forall|k: int| last_max_index(s) < k < s.len() ==> #[trigger] s[k] < s[last_max_index(s)],
    decreases s.len(),
{
    if s.len() > 1 {
        let pre = s.subrange(0, s.len() - 1);
        lemma_last_max_index(pre);
        assert(forall|k: int| 0 <= k < pre.len() ==> pre[k] == s[k]);
    }
}

/// Among the lockfiles that exist, pick the manager whose lockfile was
/// modified most recently; ties go to the candidate listed last.
pub fn pick_by_lockfiles(root: &str, candidates: &Vec<LockfileCandidate>) -> (r: Option<Detection>)
    ensures
        r is None <==> candidates@.len() == 0,
        r matches Some(d) ==> {
            let j = last_max_index(candidates@.map_values(|c: LockfileCandidate| c.modified));
            &&& 0 <= j < candidates@.len()
            &&& d.manager == candidates@[j].manager
            &&& d.version_hint is None
            &&& d.source matches DetectionSource::Lockfile(p) && p@ == candidates@[j].path@
            &&& d.project_root@ == root@
        },
{
    if candidates.len() == 0 {
        return None;
    }
    let ghost mods = candidates@.map_values(|c: LockfileCandidate| c.modified);
    let mut best: usize = 0;
    let mut k: usize = 1;
    proof {
        assert(mods.subrange(0, 1) =~= mods.subrange(0, 1));
        assert(last_max_index(mods.subrange(0, 1)) == 0);
    }
    while k < candidates.len()
        invariant
            candidates.len() == candidates@.len(),
            mods == candidates@.map_values(|c: LockfileCandidate| c.modified),
            mods.len() == candidates@.len(),
            1 <= k <= candidates@.len(),
            best < k,
            best == last_max_index(mods.subrange(0, k as int)),
        decreases candidates@.len() - k,
    {
        let ghost prefix = mods.subrange(0, k + 1);
        proof {
            assert(prefix.subrange(0, prefix.len() - 1) =~= mods.subrange(0, k as int));
            assert(prefix[prefix.len() - 1] == mods[k as int]);
            assert(mods[k as int] == candidates@[k as int].modified);
            assert(mods[best as int] == candidates@[best as int].modified);
        }
        if candidates[k].modified >= candidates[best].modified {
            best = k;
        }
        k = k + 1;
    }
    proof {
        assert(mods.subrange(0, k as int) =~= mods);
        assert(mods[best as int] == candidates@[best as int].modified);
    }
    let c = &candidates[best];
    Some(
        Detection {
            manager: c.manager,
            version_hint: None,
            source: DetectionSource::Lockfile(c.path.clone()),
            project_root: root.to_owned(),
        },
    )
}

/// An ancestor directory of the starting point, with whether it holds a
/// project manifest.
#[derive(Debug, Clone)]
pub struct DirProbe {
    pub path: String,
    pub has_manifest: bool,
}

/// The nearest ancestor directory that holds a project manifest; the probes
/// come ordered from the starting directory upward.
pub fn find_project_root(probes: &Vec<DirProbe>) -> (r: Option<String>)
    ensures
        match r {
            Option::Some(p) => exists|j: int|
                0 <= j < probes@.len() && (#[trigger] probes@[j]).has_manifest && p@
                    == probes@[j].path@ && forall|k: int|
                    0 <= k < j ==> !(#[trigger] probes@[k]).has_manifest,
            Option::None => forall|k: int|
                0 <= k < probes@.len() ==> !(#[trigger] probes@[k]).has_manifest,
        },
{
    let mut i: usize = 0;
    while i < probes.len()
        invariant
            probes.len() == probes@.len(),
            i <= probes@.len(),
            forall|k: int| 0 <= k < i ==> !(#[trigger] probes@[k]).has_manifest,
        decreases probes@.len() - i,
    {
        if probes[i].has_manifest {
            return Some(probes[i].path.clone());
        }
        i = i + 1;
    }
    None
}

/// The pnpm workspace descriptor path under the project root, when the app
/// reports that the file exists.
pub fn find_pnpm_artifacts(root: &str, workspace_exists: bool) -> (r: Option<String>)
    ensures
        match r {
            Option::Some(p) => workspace_exists && p@ == root@ + "/pnpm-workspace.yaml"@,
            Option::None => !workspace_exists,
        },
{
    if workspace_exists {
        let mut p = root.to_owned();
        p.append("/pnpm-workspace.yaml");
        Some(p)
    } else {
        None
    }
}

/// The marker files and directories whose presence under the project root
/// identifies a Yarn Berry installation, in probe order.
pub fn yarn_artifact_candidates(root: &str) -> (r: Vec<String>)
    ensures
        r.deep_view() =~= seq![
            root@ + "/.pnp.cjs"@,
            root@ + "/.pnp.loader.mjs"@,
            root@ + "/.pnp.data.json"@,
            root@ + "/.yarnrc.yml"@,
            root@ + "/.yarn"@,
        ],
{
    let mut r: Vec<String> = Vec::new();
    let mut p = root.to_owned();
    p.append("/.pnp.cjs");
    r.push(p);
    let mut p = root.to_owned();
    p.append("/.pnp.loader.mjs");
    r.push(p);
    let mut p = root.to_owned();
    p.append("/.pnp.data.json");
    r.push(p);
    let mut p = root.to_owned();
    p.append("/.yarnrc.yml");
    r.push(p);
    let mut p = root.to_owned();
    p.append("/.yarn");
    r.push(p);
    proof {
        assert(r.deep_view() =~~= seq![
            root@ + "/.pnp.cjs"@,
            root@ + "/.pnp.loader.mjs"@,
            root@ + "/.pnp.data.json"@,
            root@ + "/.yarnrc.yml"@,
            root@ + "/.yarn"@,
        ]);
    }
    r
}

/// What parsing a project manifest yields for its declared manager string:
/// an error message for unparseable text, otherwise the field when present.
pub uninterp spec fn manifest_manager_field(s: Seq<char>) -> Result<Option<Seq<char>>, Seq<char>>;

/// Relies on serde_json: parses the manifest text and hands back its
/// `packageManager` string field, absent fields and non-string values as
/// `None`, a parse failure as the parser's message.
#[verifier::external_body]
fn read_manifest_manager_field(text: &str) -> (r: Result<Option<String>, String>)
    ensures
        match r {
            Result::Ok(Option::Some(f)) => manifest_manager_field(text@) == Result::<
                Option<Seq<char>>,
                Seq<char>,
            >::Ok(Option::Some(f@)),
            Result::Ok(Option::None) => manifest_manager_field(text@) == Result::<
                Option<Seq<char>>,
                Seq<char>,
            >::Ok(Option::None),
            Result::Err(e) => manifest_manager_field(text@) == Result::<
                Option<Seq<char>>,
                Seq<char>,
            >::Err(e@),
        },
{
    match serde_json::from_str::<serde_json::Value>(text) {
        Ok(v) => Ok(v.get("packageManager").and_then(|x| x.as_str()).map(|s| s.to_string())),
        Err(e) => Err(e.to_string()),
    }
}

/// The content of the project manifest, as far as the app could read it.
#[derive(Debug, Clone)]
pub enum ManifestText {
    Missing,
    Unreadable(String),
    Text(String),
}

/// Everything detection reads from the environment and the filesystem,
/// gathered before the decision is made.
#[derive(Debug, Clone)]
pub struct DetectSignals {
    pub start_dir: String,
    pub project_root: Option<String>,
    pub user_agent: Option<String>,
    pub manifest: ManifestText,
    pub yarn_artifact: Option<String>,
    pub pnpm_workspace: Option<String>,
    pub lockfiles: Vec<LockfileCandidate>,
}

/// A successful detection of `m` with the given provenance at `root`.
pub open spec fn detection_is(
    r: Result<Detection, DetectError>,
    m: PackageManager,
    hint: Option<Seq<char>>,
    root: Seq<char>,
) -> bool {
    &&& r matches Result::Ok(d)
    &&& d.manager == m
    &&& match (d.version_hint, hint) {
        (Option::Some(a), Option::Some(b)) => a@ == b,
        (Option::None, Option::None) => true,
        _ => false,
    }
    &&& d.project_root@ == root
}

/// What detection decides once the user-agent and manifest steps have fallen
/// through: yarn artifacts, then the pnpm workspace file, then the youngest
/// lockfile, then the npm fallback.
pub open spec fn detect_post_artifacts(
    sig: DetectSignals,
    root: Seq<char>,
    r: Result<Detection, DetectError>,
) -> bool {
    match sig.yarn_artifact {
        Option::Some(p) => detection_is(r, PackageManager::YarnBerry, Option::None, root)
            && (r matches Result::Ok(d) && d.source matches DetectionSource::YarnArtifacts(q) && q@
            == p@),
        Option::None => match sig.pnpm_workspace {
            Option::Some(p) => detection_is(r, PackageManager::Pnpm, Option::None, root) && (
            r matches Result::Ok(d) && d.source matches DetectionSource::PnpmArtifacts(q) && q@
                == p@),
            Option::None => if sig.lockfiles@.len() > 0 {
                let j = last_max_index(
                    sig.lockfiles@.map_values(|c: LockfileCandidate| c.modified),
                );
                &&& 0 <= j < sig.lockfiles@.len()
                &&& detection_is(r, sig.lockfiles@[j].manager, Option::None, root)
                &&& (r matches Result::Ok(d) && d.source matches DetectionSource::Lockfile(q) && q@
                    == sig.lockfiles@[j].path@)
            } else {
                detection_is(r, PackageManager::Npm, Option::None, root) && (
                r matches Result::Ok(d) && d.source is Heuristic)
            },
        },
    }
}

/// The full contract of detection: the ordered resolution chain of
/// user-agent signal, declared manifest field, yarn artifacts, pnpm
/// workspace, lockfile ages, and the terminal npm fallback; no project root
/// is the one fatal precondition, and an unreadable or unparseable manifest
/// is surfaced rather than masked.
pub open spec fn detect_post(sig: DetectSignals, r: Result<Detection, DetectError>) -> bool {
    match sig.project_root {
        Option::None => r matches Result::Err(DetectError::NoProject(p)) && p@ == sig.start_dir@,
        Option::Some(root) => {
            let ua_res = match sig.user_agent {
                Option::Some(ua) => spec_parse_user_agent(ua@),
                Option::None => Option::None,
            };
            match ua_res {
                Option::Some(pv) => detection_is(r, pv.0, pv.1, root@) && (
                r matches Result::Ok(d) && d.source matches DetectionSource::UserAgent(u)
                    && sig.user_agent matches Option::Some(ua) && u@ == ua@),
                Option::None => match sig.manifest {
                    ManifestText::Unreadable(m) => r matches Result::Err(DetectError::Io(msg))
                        && msg@ == m@,
                    ManifestText::Text(t) => match manifest_manager_field(t@) {
                        Result::Err(e) => r matches Result::Err(DetectError::BadJson(p, msg)) && p@
                            == root@ + "/package.json"@ && msg@ == e,
                        Result::Ok(fo) => {
                            let field_res = match fo {
                                Option::Some(f) => spec_manager_field(f),
                                Option::None => Option::None,
                            };
                            match field_res {
                                Option::Some(pv) => detection_is(
                                    r,
                                    pv.0,
                                    Option::Some(pv.1),
                                    root@,
                                ) && (r matches Result::Ok(d)
                                    && d.source is PackageJsonField),
                                Option::None => detect_post_artifacts(sig, root@, r),
                            }
                        },
                    },
                    ManifestText::Missing => detect_post_artifacts(sig, root@, r),
                },
            }
        },
    }
}

/// Decide which package manager governs the project, from the gathered
/// signals, in the fixed resolution order; the decision is total, with the
/// npm heuristic as the terminal fallback.
pub fn detect_package_manager(sig: &DetectSignals) -> (r: Result<Detection, DetectError>)
    ensures
        detect_post(*sig, r),
{
    let root: String = match &sig.project_root {
        Option::Some(root) => root.clone(),
        Option::None => {
            return Result::Err(DetectError::NoProject(sig.start_dir.clone()));
        },
    };
    match &sig.user_agent {
        Option::Some(ua) => {
            match parse_user_agent(ua.as_str()) {
                Option::Some((pm, hint)) => {
                    return Result::Ok(
                        Detection {
                            manager: pm,
                            version_hint: hint,
                            source: DetectionSource::UserAgent(ua.clone()),
                            project_root: root,
                        },
                    );
                },
                Option::None => {},
            }
        },
        Option::None => {},
    }
    match &sig.manifest {
        ManifestText::Unreadable(m) => {
            return Result::Err(DetectError::Io(m.clone()));
        },
        ManifestText::Text(t) => {
            match read_manifest_manager_field(t.as_str()) {
                Result::Err(e) => {
                    let mut p = root;
                    p.append("/package.json");
                    return Result::Err(DetectError::BadJson(p, e));
                },
                Result::Ok(Option::Some(f)) => {
                    match parse_manager_field(f.as_str()) {
                        Option::Some((pm, ver)) => {
                            return Result::Ok(
                                Detection {
                                    manager: pm,
                                    version_hint: Some(ver),
                                    source: DetectionSource::PackageJsonField,
                                    project_root: root,
                                },
                            );
                        },
                        Option::None => {},
                    }
                },
                Result::Ok(Option::None) => {},
            }
        },
        ManifestText::Missing => {},
    }
    match &sig.yarn_artifact {
        Option::Some(p) => {
            return Result::Ok(
                Detection {
                    manager: PackageManager::YarnBerry,
                    version_hint: None,
                    source: DetectionSource::YarnArtifacts(p.clone()),
                    project_root: root,
                },
            );
        },
        Option::None => {},
    }
    match &sig.pnpm_workspace {
        Option::Some(p) => {
            return Result::Ok(
                Detection {
                    manager: PackageManager::Pnpm,
                    version_hint: None,
                    source: DetectionSource::PnpmArtifacts(p.clone()),
                    project_root: root,
                },
            );
        },
        Option::None => {},
    }
    match pick_by_lockfiles(root.as_str(), &sig.lockfiles) {
        Option::Some(d) => {
            return Result::Ok(d);
        },
        Option::None => {},
    }
    Result::Ok(
        Detection {
            manager: PackageManager::Npm,
            version_hint: None,
            source: DetectionSource::Heuristic,
            project_root: root,
        },
    )
}

pub open spec fn spec_manager_name(m: PackageManager) -> Seq<char> {
    match m {
        PackageManager::Npm => "npm"@,
        PackageManager::YarnClassic => "yarn (classic)"@,
        PackageManager::YarnBerry => "yarn (berry)"@,
        PackageManager::Pnpm => "pnpm"@,
        PackageManager::Bun => "bun"@,
        PackageManager::Unknown => "unknown"@,
    }
}

/// The command that installs regular dependencies under a manager.
pub open spec fn spec_install_cmd(m: PackageManager) -> Seq<Seq<char>> {
    match m {
        PackageManager::YarnClassic | PackageManager::YarnBerry => seq!["yarn"@, "add"@],
        PackageManager::Pnpm => seq!["pnpm"@, "add"@],
        PackageManager::Bun => seq!["bun"@, "add"@],
        _ => seq!["npm"@, "install"@],
    }
}

/// The command that installs development dependencies under a manager.
pub open spec fn spec_install_dev_cmd(m: PackageManager) -> Seq<Seq<char>> {
    match m {
        PackageManager::YarnClassic | PackageManager::YarnBerry => seq!["yarn"@, "add"@, "--dev"@],
        PackageManager::Pnpm => seq!["pnpm"@, "add"@, "--save-dev"@],
        PackageManager::Bun => seq!["bun"@, "add"@, "--dev"@],
        _ => seq!["npm"@, "install"@, "--save-dev"@],
    }
}

impl PackageManager {
    /// The command that installs regular dependencies under this manager.
    pub fn install_command(&self) -> (r: Vec<String>)
        ensures
            r.deep_view() == spec_install_cmd(*self),
    {
        let mut r: Vec<String> = Vec::new();
        match self {
            PackageManager::YarnClassic | PackageManager::YarnBerry => {
                r.push("yarn".to_owned());
                r.push("add".to_owned());
                proof {
                    assert(r.deep_view() =~~= seq!["yarn"@, "add"@]);
                }
            },
            PackageManager::Pnpm => {
                r.push("pnpm".to_owned());
                r.push("add".to_owned());
                proof {
                    assert(r.deep_view() =~~= seq!["pnpm"@, "add"@]);
                }
            },
            PackageManager::Bun => {
                r.push("bun".to_owned());
                r.push("add".to_owned());
                proof {
                    assert(r.deep_view() =~~= seq!["bun"@, "add"@]);
                }
            },
            _ => {
                r.push("npm".to_owned());
                r.push("install".to_owned());
                proof {
                    assert(r.deep_view() =~~= seq!["npm"@, "install"@]);
                }
            },
        }
        r
    }

    /// The command that installs development dependencies under this manager.
    pub fn install_dev_command(&self) -> (r: Vec<String>)
        ensures
            r.deep_view() == spec_install_dev_cmd(*self),
    {
        let mut r: Vec<String> = Vec::new();
        match self {
            PackageManager::YarnClassic | PackageManager::YarnBerry => {
                r.push("yarn".to_owned());
                r.push("add".to_owned());
                r.push("--dev".to_owned());
                proof {
                    assert(r.deep_view() =~~= seq!["yarn"@, "add"@, "--dev"@]);
                }
            },
            PackageManager::Pnpm => {
                r.push("pnpm".to_owned());
                r.push("add".to_owned());
                r.push("--save-dev".to_owned());
                proof {
                    assert(r.deep_view() =~~= seq!["pnpm"@, "add"@, "--save-dev"@]);
                }
            },
            PackageManager::Bun => {
                r.push("bun".to_owned());
                r.push("add".to_owned());
                r.push("--dev".to_owned());
                proof {
                    assert(r.deep_view() =~~= seq!["bun"@, "add"@, "--dev"@]);
                }
            },
            _ => {
                r.push("npm".to_owned());
                r.push("install".to_owned());
                r.push("--save-dev".to_owned());
                proof {
                    assert(r.deep_view() =~~= seq!["npm"@, "install"@, "--save-dev"@]);
                }
            },
        }
        r
    }

    /// The manager's display name.
    pub fn name(&self) -> (r: &'static str)
        ensures
            r@ == spec_manager_name(*self),
    {
        match self {
            PackageManager::Npm => "npm",
            PackageManager::YarnClassic => "yarn (classic)",
            PackageManager::YarnBerry => "yarn (berry)",
            PackageManager::Pnpm => "pnpm",
            PackageManager::Bun => "bun",
            PackageManager::Unknown => "unknown",
        }
    }
}

/// The provenance half of a detection's description.
pub open spec fn spec_source_desc(src: DetectionSource) -> Seq<char> {
    match src {
        DetectionSource::PackageJsonField => "package.json field"@,
        DetectionSource::Lockfile(p) => "lockfile: "@ + p@,
        DetectionSource::YarnArtifacts(p) => "yarn artifacts: "@ + p@,
        DetectionSource::PnpmArtifacts(p) => "pnpm artifacts: "@ + p@,
        DetectionSource::UserAgent(ua) => "user agent: "@ + ua@,
        DetectionSource::Heuristic => "heuristic"@,
    }
}

impl Detection {
    /// A one-line description of what was detected, how, and where.
    pub fn info(&self) -> (r: String)
        ensures
            r@ == "Detected "@ + spec_manager_name(self.manager) + " via "@ + spec_source_desc(
                self.source,
            ) + " at "@ + self.project_root@,
    {
        let mut r = "Detected ".to_owned();
        r.append(self.manager.name());
        r.append(" via ");
        match &self.source {
            DetectionSource::PackageJsonField => r.append("package.json field"),
            DetectionSource::Lockfile(p) => {
                r.append("lockfile: ");
                r.append(p.as_str());
            },
            DetectionSource::YarnArtifacts(p) => {
                r.append("yarn artifacts: ");
                r.append(p.as_str());
            },
            DetectionSource::PnpmArtifacts(p) => {
                r.append("pnpm artifacts: ");
                r.append(p.as_str());
            },
            DetectionSource::UserAgent(ua) => {
                r.append("user agent: ");
                r.append(ua.as_str());
            },
            DetectionSource::Heuristic => r.append("heuristic"),
        }
        r.append(" at ");
        r.append(self.project_root.as_str());
        r
    }
}

impl DetectError {
    /// The error rendered for display.
    pub fn message(&self) -> (r: String)
        ensures
            r@ == match *self {
                DetectError::NoProject(p) => "nenhum projeto Node encontrado (package.json) a partir de "@
                    + p@,
                DetectError::Io(m) => "erro de IO: "@ + m@,
                DetectError::BadJson(p, m) => "json inválido em "@ + p@ + ": "@ + m@,
            },
    {
        match self {
            DetectError::NoProject(p) => {
                let mut r = "nenhum projeto Node encontrado (package.json) a partir de ".to_owned();
                r.append(p.as_str());
                r
            },
            DetectError::Io(m) => {
                let mut r = "erro de IO: ".to_owned();
                r.append(m.as_str());
                r
            },
            DetectError::BadJson(p, m) => {
                let mut r = "json inválido em ".to_owned();
                r.append(p.as_str());
                r.append(": ");
                r.append(m.as_str());
                r
            },
        }
    }
}

} // verus!
