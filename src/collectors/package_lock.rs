//! The npm collector: the packages listed by a `package-lock.json`, one per distinct
//! `(name, version)`.
use crate::collectors::{dedup_packages, dedup_seq, tagged};
use crate::models::{identities, CollectorDependency, ProjectLanguage};
use vstd::prelude::*;

verus! {

#[verifier::external_type_specification]
#[verifier::external_body]
pub struct ExPackageLockJsonError(package_lock_json_parser::PackageLockJsonError);

/// Whether the lockfile parser accepts a text.
pub uninterp spec fn lockfile_parses(content: Seq<char>) -> bool;

/// No two raw entries share a name.
pub open spec fn names_distinct(entries: Seq<(String, String)>) -> bool {
    forall|i: int, j: int|
        0 <= i < entries.len() && 0 <= j < entries.len() && i != j ==> (#[trigger] entries[i]).0@
            != (#[trigger] entries[j]).0@
}

/// JSON white space.
pub open spec fn is_json_space(c: char) -> bool {
    c == ' ' || c == '\t' || c == '\n' || c == '\r'
}

/// What the scan expects next at the current nesting level.
#[derive(Debug, Clone, Copy, PartialEq, Eq, Structural)]
pub enum Expect {
    Value,
    Key,
    Colon,
    Comma,
}

/// Where the scan stands with respect to string literals.
#[derive(Debug, Clone, Copy, PartialEq, Eq, Structural)]
pub enum StrPos {
    Outside,
    Inside,
    /// Right after a backslash.
    Escape,
    /// Inside the four hex digits of a `\u` escape.
    Hex,
}

/// The role of the value that follows the last key read.
#[derive(Debug, Clone, Copy, PartialEq, Eq, Structural)]
pub enum KeyRole {
    Other,
    /// The value of the root's `packages` key.
    Packages,
    /// The value of a non-empty key of the packages map: one package entry.
    Package,
    /// The value of the `engines` key of a package entry.
    Engines,
}

/// The state of a one-pass scan of a lockfile text. Levels count open containers from
/// the root (level 1). Keys are decoded (escapes included) before they are compared.
#[derive(Debug, Clone, Copy, PartialEq, Eq, Structural)]
pub struct LockScan {
    pub depth: usize,
    pub object1: bool,
    pub object2: bool,
    pub object3: bool,
    /// The level-2 container is the packages map.
    pub packages_map: bool,
    /// The level-3 container is a package entry.
    pub package_object: bool,
    /// The level-4 container is the `engines` array of a package entry.
    pub engines_array: bool,
    /// The index of the current element of a root array, counted up to 5.
    pub element1: u8,
    pub expect: Expect,
    pub string: StrPos,
    /// The current string is a key.
    pub in_key: bool,
    pub hex_left: u8,
    pub hex_value: u32,
    /// The decoded characters of the current key, counted up to 9.
    pub key_len: u8,
    /// Those characters spell a prefix of `packages`.
    pub key_packages: bool,
    /// Those characters spell a prefix of `engines`.
    pub key_engines: bool,
    pub role: KeyRole,
}

pub open spec fn scan_start() -> LockScan {
    LockScan {
        depth: 0,
        object1: false,
        object2: false,
        object3: false,
        packages_map: false,
        package_object: false,
        engines_array: false,
        element1: 0,
        expect: Expect::Value,
        string: StrPos::Outside,
        in_key: false,
        hex_left: 0,
        hex_value: 0,
        key_len: 0,
        key_packages: true,
        key_engines: true,
        role: KeyRole::Other,
    }
}

/// The character code at position `k` of `packages`.
pub open spec fn packages_code(k: u8) -> u32 {
    if k == 0 { 112 } else if k == 1 { 97 } else if k == 2 { 99 } else if k == 3 { 107 }
    else if k == 4 { 97 } else if k == 5 { 103 } else if k == 6 { 101 } else { 115 }
}

/// The character code at position `k` of `engines`.
pub open spec fn engines_code(k: u8) -> u32 {
    if k == 0 { 101 } else if k == 1 { 110 } else if k == 2 { 103 } else if k == 3 { 105 }
    else if k == 4 { 110 } else if k == 5 { 101 } else { 115 }
}

/// One more decoded character, with code `code`, of the current string.
pub open spec fn feed(st: LockScan, code: u32) -> LockScan {
    if !st.in_key {
        st
    } else {
        LockScan {
            key_packages: st.key_packages && st.key_len < 8 && code == packages_code(st.key_len),
            key_engines: st.key_engines && st.key_len < 7 && code == engines_code(st.key_len),
            key_len: if st.key_len < 9 { (st.key_len + 1) as u8 } else { 9 },
            ..st
        }
    }
}

/// The closing quote of the current string.
pub open spec fn close_string(st: LockScan) -> LockScan {
    if st.in_key {
        let role = if st.depth == 1 && st.object1 && st.key_len == 8 && st.key_packages {
            KeyRole::Packages
        } else if st.depth == 2 && st.packages_map && st.key_len > 0 {
            KeyRole::Package
        } else if st.depth == 3 && st.package_object && st.key_len == 7 && st.key_engines {
            KeyRole::Engines
        } else {
            KeyRole::Other
        };
        LockScan { string: StrPos::Outside, in_key: false, expect: Expect::Colon, role, ..st }
    } else {
        LockScan { string: StrPos::Outside, expect: Expect::Comma, ..st }
    }
}

/// An opening bracket (`is_object` for `{`); `None` where it opens an element of an
/// `engines` array, or where the depth cannot be counted.
pub open spec fn open_container(st: LockScan, is_object: bool) -> Option<LockScan> {
    if st.engines_array && st.depth == 4 {
        None
    } else if st.depth == usize::MAX {
        None
    } else {
        let d = (st.depth + 1) as usize;
        Some(
            LockScan {
                depth: d,
                object1: if d == 1 { is_object } else { st.object1 },
                element1: if d == 1 { 0 } else { st.element1 },
                object2: if d == 2 { is_object } else { st.object2 },
                packages_map: if d == 2 {
                    is_object && ((st.object1 && st.role == KeyRole::Packages) || (!st.object1
                        && st.element1 == 4))
                } else {
                    st.packages_map
                },
                object3: if d == 3 { is_object } else { st.object3 },
                package_object: if d == 3 {
                    is_object && st.packages_map && st.role == KeyRole::Package
                } else {
                    st.package_object
                },
                engines_array: if d == 4 {
                    !is_object && st.package_object && st.role == KeyRole::Engines
                } else {
                    st.engines_array
                },
                expect: if is_object { Expect::Key } else { Expect::Value },
                role: KeyRole::Other,
                ..st
            },
        )
    }
}

/// A comma between elements or members.
pub open spec fn next_member(st: LockScan) -> LockScan {
    let object = if st.depth == 1 {
        st.object1
    } else if st.depth == 2 {
        st.object2
    } else if st.depth == 3 {
        st.object3
    } else {
        false
    };
    LockScan {
        expect: if object { Expect::Key } else { Expect::Value },
        role: KeyRole::Other,
        element1: if st.depth == 1 && !st.object1 && st.element1 < 5 {
            (st.element1 + 1) as u8
        } else {
            st.element1
        },
        ..st
    }
}

/// The value of a hexadecimal digit.
pub open spec fn hex_digit(c: char) -> Option<u32> {
    if '0' <= c && c <= '9' {
        Some((c as u32 - 48) as u32)
    } else if 'a' <= c && c <= 'f' {
        Some((c as u32 - 87) as u32)
    } else if 'A' <= c && c <= 'F' {
        Some((c as u32 - 55) as u32)
    } else {
        None
    }
}

/// One step of the scan; `None` where an `engines` array of a package entry holds an
/// element that is not a string.
pub open spec fn scan_step(st: LockScan, c: char) -> Option<LockScan> {
    match st.string {
        StrPos::Inside => if c == '"' {
            Some(close_string(st))
        } else if c == '\\' {
            Some(LockScan { string: StrPos::Escape, ..st })
        } else {
            Some(feed(st, c as u32))
        },
        StrPos::Escape => if c == 'u' {
            Some(LockScan { string: StrPos::Hex, hex_left: 4, hex_value: 0, ..st })
        } else {
            Some(LockScan { string: StrPos::Inside, ..feed(st, 0) })
        },
        StrPos::Hex => match hex_digit(c) {
            Some(d) => {
                let v = ((st.hex_value % 4096) * 16 + d) as u32;
                if st.hex_left <= 1 {
                    Some(LockScan { string: StrPos::Inside, hex_left: 0, ..feed(st, v) })
                } else {
                    Some(LockScan { hex_left: (st.hex_left - 1) as u8, hex_value: v, ..st })
                }
            },
            None => Some(LockScan { string: StrPos::Inside, ..st }),
        },
        StrPos::Outside => if is_json_space(c) {
            Some(st)
        } else if c == '"' {
            Some(
                LockScan {
                    string: StrPos::Inside,
                    in_key: st.expect == Expect::Key,
                    key_len: 0,
                    key_packages: true,
                    key_engines: true,
                    ..st
                },
            )
        } else if c == '{' || c == '[' {
            open_container(st, c == '{')
        } else if c == '}' || c == ']' {
            if st.depth == 0 {
                Some(LockScan { expect: Expect::Comma, ..st })
            } else {
                Some(
                    LockScan {
                        depth: (st.depth - 1) as usize,
                        expect: Expect::Comma,
                        role: KeyRole::Other,
                        ..st
                    },
                )
            }
        } else if c == ':' {
            Some(LockScan { expect: Expect::Value, ..st })
        } else if c == ',' {
            Some(next_member(st))
        } else if st.engines_array && st.depth == 4 {
            None
        } else {
            Some(LockScan { expect: Expect::Comma, ..st })
        },
    }
}

/// The scan run from position `i` in state `st` meets no failing step.
pub open spec fn scan_from(s: Seq<char>, i: int, st: LockScan) -> bool
    decreases s.len() - i,
{
    if i < 0 || i >= s.len() {
        true
    } else {
        match scan_step(st, s[i]) {
            None => false,
            Some(next) => scan_from(s, i + 1, next),
        }
    }
}

/// No package entry of the text has an `engines` array holding an element that is not
/// a string. Package entries are the members with non-empty keys of the root's
/// `packages` object (or of the fifth element of a root array); keys are compared
/// after their escapes are decoded.
pub open spec fn engine_lists_hold_strings(s: Seq<char>) -> bool {
    scan_from(s, 0, scan_start())
}

/// Deduplicating a sequence without duplicates leaves it as it is.
pub proof fn lemma_dedup_of_distinct<T>(s: Seq<T>)
    requires
        s.no_duplicates(),
    ensures
        dedup_seq(s) == s,
    decreases s.len(),
{
    if s.len() > 0 {
        let p = s.drop_last();
        assert(p.no_duplicates()) by {
            assert forall|i: int, j: int| 0 <= i < p.len() && 0 <= j < p.len() && i != j
                implies p[i] != p[j] by {
                assert(s[i] != s[j]);
            }
        }
        lemma_dedup_of_distinct(p);
        if p.contains(s.last()) {
            let k = choose|k: int| 0 <= k < p.len() && p[k] == s.last();
            assert(s[k] == s[s.len() - 1]);
        }
        assert(p.push(s.last()) =~= s);
    }
}

/// Relies on str::chars: it yields the characters of the string, in order.
#[verifier::external_body]
fn chars_of(s: &str) -> (r: Vec<char>)
    ensures
        r@ == s@,
{
    s.chars().collect()
}

/// Relies on package_lock_json_parser::parse_dependencies: whether it accepts the text
/// depends on the text alone, and on success it lists one entry per key of a hash map,
/// so no two entries share a name. Which entry a key keeps where two entries of the
/// text map to one key follows the hash map's order, so nothing more is stated of the
/// entries. It panics on an `engines` array of a package entry with an element that is
/// not a string, which `requires` leaves out.
#[verifier::external_body]
fn parse_lockfile(content: &str) -> (r: Result<
    Vec<(String, String)>,
    package_lock_json_parser::PackageLockJsonError,
>)
    requires
        engine_lists_hold_strings(content@),
    ensures
        r is Ok <==> lockfile_parses(content@),
        r is Ok ==> names_distinct(r->Ok_0@),
{
    package_lock_json_parser::parse_dependencies(content).map(
        |deps| deps.into_iter().map(|d| (d.name, d.version)).collect(),
    )
}

fn packages_code_exec(k: u8) -> (r: u32)
    ensures
        r == packages_code(k),
{
    if k == 0 { 112 } else if k == 1 { 97 } else if k == 2 { 99 } else if k == 3 { 107 }
    else if k == 4 { 97 } else if k == 5 { 103 } else if k == 6 { 101 } else { 115 }
}

fn engines_code_exec(k: u8) -> (r: u32)
    ensures
        r == engines_code(k),
{
    if k == 0 { 101 } else if k == 1 { 110 } else if k == 2 { 103 } else if k == 3 { 105 }
    else if k == 4 { 110 } else if k == 5 { 101 } else { 115 }
}

fn feed_exec(st: LockScan, code: u32) -> (r: LockScan)
    ensures
        r == feed(st, code),
{
    if !st.in_key {
        st
    } else {
        let key_packages = st.key_packages && st.key_len < 8 && code == packages_code_exec(st.key_len);
        let key_engines = st.key_engines && st.key_len < 7 && code == engines_code_exec(st.key_len);
        let key_len: u8 = if st.key_len < 9 { st.key_len + 1 } else { 9 };
        LockScan { key_packages, key_engines, key_len, ..st }
    }
}

fn close_string_exec(st: LockScan) -> (r: LockScan)
    ensures
        r == close_string(st),
{
    if st.in_key {
        let role = if st.depth == 1 && st.object1 && st.key_len == 8 && st.key_packages {
            KeyRole::Packages
        } else if st.depth == 2 && st.packages_map && st.key_len > 0 {
            KeyRole::Package
        } else if st.depth == 3 && st.package_object && st.key_len == 7 && st.key_engines {
            KeyRole::Engines
        } else {
            KeyRole::Other
        };
        LockScan { string: StrPos::Outside, in_key: false, expect: Expect::Colon, role, ..st }
    } else {
        LockScan { string: StrPos::Outside, expect: Expect::Comma, ..st }
    }
}

fn open_container_exec(st: LockScan, is_object: bool) -> (r: Option<LockScan>)
    ensures
        r == open_container(st, is_object),
{
    if st.engines_array && st.depth == 4 {
        None
    } else if st.depth == usize::MAX {
        None
    } else {
        let d = st.depth + 1;
        Some(
            LockScan {
                depth: d,
                object1: if d == 1 { is_object } else { st.object1 },
                element1: if d == 1 { 0 } else { st.element1 },
                object2: if d == 2 { is_object } else { st.object2 },
                packages_map: if d == 2 {
                    is_object && ((st.object1 && st.role == KeyRole::Packages) || (!st.object1
                        && st.element1 == 4))
                } else {
                    st.packages_map
                },
                object3: if d == 3 { is_object } else { st.object3 },
                package_object: if d == 3 {
                    is_object && st.packages_map && st.role == KeyRole::Package
                } else {
                    st.package_object
                },
                engines_array: if d == 4 {
                    !is_object && st.package_object && st.role == KeyRole::Engines
                } else {
                    st.engines_array
                },
                expect: if is_object { Expect::Key } else { Expect::Value },
                role: KeyRole::Other,
                ..st
            },
        )
    }
}

fn next_member_exec(st: LockScan) -> (r: LockScan)
    ensures
        r == next_member(st),
{
    let object = if st.depth == 1 {
        st.object1
    } else if st.depth == 2 {
        st.object2
    } else if st.depth == 3 {
        st.object3
    } else {
        false
    };
    let element1: u8 = if st.depth == 1 && !st.object1 && st.element1 < 5 {
        st.element1 + 1
    } else {
        st.element1
    };
    LockScan {
        expect: if object { Expect::Key } else { Expect::Value },
        role: KeyRole::Other,
        element1,
        ..st
    }
}

fn hex_digit_exec(c: char) -> (r: Option<u32>)
    ensures
        r == hex_digit(c),
{
    if '0' <= c && c <= '9' {
        Some(c as u32 - 48)
    } else if 'a' <= c && c <= 'f' {
        Some(c as u32 - 87)
    } else if 'A' <= c && c <= 'F' {
        Some(c as u32 - 55)
    } else {
        None
    }
}

/// One step of the scan.
pub fn scan_step_exec(st: LockScan, c: char) -> (r: Option<LockScan>)
    ensures
        r == scan_step(st, c),
{
    match st.string {
        StrPos::Inside => if c == '"' {
            Some(close_string_exec(st))
        } else if c == '\\' {
            Some(LockScan { string: StrPos::Escape, ..st })
        } else {
            Some(feed_exec(st, c as u32))
        },
        StrPos::Escape => if c == 'u' {
            Some(LockScan { string: StrPos::Hex, hex_left: 4, hex_value: 0, ..st })
        } else {
            Some(LockScan { string: StrPos::Inside, ..feed_exec(st, 0) })
        },
        StrPos::Hex => match hex_digit_exec(c) {
            Some(d) => {
                let v: u32 = (st.hex_value % 4096) * 16 + d;
                if st.hex_left <= 1 {
                    Some(LockScan { string: StrPos::Inside, hex_left: 0, ..feed_exec(st, v) })
                } else {
                    Some(LockScan { hex_left: st.hex_left - 1, hex_value: v, ..st })
                }
            },
            None => Some(LockScan { string: StrPos::Inside, ..st }),
        },
        StrPos::Outside => if c == ' ' || c == '\t' || c == '\n' || c == '\r' {
            Some(st)
        } else if c == '"' {
            Some(
                LockScan {
                    string: StrPos::Inside,
                    in_key: st.expect == Expect::Key,
                    key_len: 0,
                    key_packages: true,
                    key_engines: true,
                    ..st
                },
            )
        } else if c == '{' || c == '[' {
            open_container_exec(st, c == '{')
        } else if c == '}' || c == ']' {
            if st.depth == 0 {
                Some(LockScan { expect: Expect::Comma, ..st })
            } else {
                Some(LockScan { depth: st.depth - 1, expect: Expect::Comma, role: KeyRole::Other, ..st })
            }
        } else if c == ':' {
            Some(LockScan { expect: Expect::Value, ..st })
        } else if c == ',' {
            Some(next_member_exec(st))
        } else if st.engines_array && st.depth == 4 {
            None
        } else {
            Some(LockScan { expect: Expect::Comma, ..st })
        },
    }
}

/// Whether `engine_lists_hold_strings` holds of the text.
pub fn engine_lists_are_strings(s: &Vec<char>) -> (r: bool)
    ensures
        r == engine_lists_hold_strings(s@),
{
    let mut st = LockScan {
        depth: 0,
        object1: false,
        object2: false,
        object3: false,
        packages_map: false,
        package_object: false,
        engines_array: false,
        element1: 0,
        expect: Expect::Value,
        string: StrPos::Outside,
        in_key: false,
        hex_left: 0,
        hex_value: 0,
        key_len: 0,
        key_packages: true,
        key_engines: true,
        role: KeyRole::Other,
    };
    let mut i: usize = 0;
    while i < s.len()
        invariant
            i <= s.len(),
            scan_from(s@, i as int, st) == scan_from(s@, 0, scan_start()),
        decreases s.len() - i,
    {
        match scan_step_exec(st, s[i]) {
            None => {
                return false;
            },
            Some(next) => {
                st = next;
            },
        }
        i += 1;
    }
    true
}

/// The JavaScript dependencies listed by the text of a `package-lock.json`, one per
/// distinct `(name, version)`, none sharing a name. A text that the parser rejects, or
/// whose package entries hold an `engines` array with an element that is not a string,
/// yields none.
pub fn collect_dependencies(content: &str) -> (r: Vec<CollectorDependency>)
    ensures
        !engine_lists_hold_strings(content@) ==> r@.len() == 0,
        engine_lists_hold_strings(content@) && !lockfile_parses(content@) ==> r@.len() == 0,
        forall|k: int| 0 <= k < r@.len() ==> (#[trigger] r@[k]).language == ProjectLanguage::JavaScript,
        forall|i: int, j: int|
            0 <= i < r@.len() && 0 <= j < r@.len() && i != j ==> (#[trigger] r@[i]).name@
                != (#[trigger] r@[j]).name@,
{
    let chars = chars_of(content);
    if !engine_lists_are_strings(&chars) {
        return Vec::new();
    }
    match parse_lockfile(content) {
        Ok(entries) => {
            let r = dedup_packages(&entries, ProjectLanguage::JavaScript);
            proof {
                let t = tagged(entries@, ProjectLanguage::JavaScript);
                assert(t.no_duplicates()) by {
                    assert forall|i: int, j: int| 0 <= i < t.len() && 0 <= j < t.len() && i != j
                        implies t[i] != t[j] by {
                        assert(entries@[i].0@ != entries@[j].0@);
                    }
                }
                lemma_dedup_of_distinct(t);
                assert forall|k: int| 0 <= k < r@.len() implies (#[trigger] r@[k]).language
                    == ProjectLanguage::JavaScript by {
                    assert(identities(r@)[k] == t[k]);
                }
                assert forall|i: int, j: int|
                    0 <= i < r@.len() && 0 <= j < r@.len() && i != j implies (#[trigger] r@[i]).name@
                    != (#[trigger] r@[j]).name@ by {
                    assert(identities(r@)[i] == t[i]);
                    assert(identities(r@)[j] == t[j]);
                    assert(entries@[i].0@ != entries@[j].0@);
                }
            }
            r
        },
        Err(_) => Vec::new(),
    }
}

} // verus!
