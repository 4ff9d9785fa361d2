//! Security checks. Reading the system (files, environment, process maps)
//! is the caller's job; this module decides from what was read: whether the
//! app runs in the primary user profile and whether signs of a work
//! profile, device management, cross-profile input or screen monitoring
//! are present.
use vstd::prelude::*;
use vstd::utf8::encode_utf8;
use vstd::string::{StringSliceAdditionalSpecFns, StringExecFns};
use crate::text::{bytes_contain, has_sub, occurs_at, decimal_i64, i32_to_decimal};

verus! {

/// A security violation found at startup.
#[derive(Debug, Clone, Copy, PartialEq, Eq, Structural)]
pub enum SecurityViolation {
    DebuggerDetected,
    RootDetected,
    EmulatorDetected,
    HookDetected,
    SignatureInvalid,
    TamperDetected,
    WorkProfileDetected,
}

/// Startup checks on a desktop: nothing is enforced there.
pub fn run_startup_checks() -> (r: Result<(), SecurityViolation>)
    ensures
        r is Ok,
{
    Ok(())
}

/// Background monitoring: not needed on a desktop.
pub fn start_security_monitor() {
}

/// Device integrity checks.
pub struct SecurityChecker {
    /// When the checker was created (ms).
    pub startup_time: u64,
}

impl SecurityChecker {
    /// A checker created at `now_ms`.
    pub fn new_at(now_ms: u64) -> (c: Self)
        ensures
            c.startup_time == now_ms,
    {
        SecurityChecker { startup_time: now_ms }
    }

    /// A checker created now.
    pub fn new() -> (c: Self) {
        Self::new_at(crate::wire::now_ms())
    }

    /// Package signature check: accepted (no package manager binding yet).
    pub fn verify_signature(&self) -> (r: Result<(), SecurityViolation>)
        ensures
            r is Ok,
    {
        Ok(())
    }

    /// Binary integrity check: accepted (no checksums recorded yet).
    pub fn verify_integrity(&self) -> (r: Result<(), SecurityViolation>)
        ensures
            r is Ok,
    {
        Ok(())
    }

    /// Memory integrity check: accepted (no region checksums recorded yet).
    pub fn check_memory_integrity(&self) -> (r: Result<(), SecurityViolation>)
        ensures
            r is Ok,
    {
        Ok(())
    }
}

/// Decode obfuscated bytes as text (invalid UTF-8 replaced).
pub fn decode_string(bytes: &[u8]) -> (s: String)
    ensures
        s@ == crate::wire::lossy_utf8(bytes@),
{
    crate::wire::lossy_string(bytes)
}

/// A profile-related violation.
#[derive(Debug, Clone, Copy, PartialEq, Eq, Structural)]
pub enum ProfileViolation {
    WorkProfileDetected,
    SecondaryUserDetected,
    CrossProfileClipboard,
    CrossProfileKeyboard,
    CrossProfileAccessibility,
    ManagedProfileActive,
}

/// The kind of user profile.
#[derive(Debug, Clone, Copy, PartialEq, Eq, Structural)]
pub enum ProfileType {
    /// User 0.
    Primary,
    /// Another user (10, 20, ...).
    Secondary,
    /// A managed work profile.
    WorkProfile,
    Unknown,
}

/// The profile type of a user id, given whether work-profile signs exist.
pub open spec fn profile_type_spec(user_id: i32, work_profile: bool) -> ProfileType {
    if user_id == 0 {
        ProfileType::Primary
    } else if work_profile {
        ProfileType::WorkProfile
    } else if user_id >= 10 {
        ProfileType::Secondary
    } else {
        ProfileType::Unknown
    }
}

/// Where the line starting at `s` ends: the next `\n` or the end.
pub open spec fn line_end(t: Seq<u8>, s: int) -> int
    decreases t.len() - s,
{
    if s < 0 || s >= t.len() { t.len() as int } else if t[s] == 0x0a { s } else { line_end(t, s + 1) }
}

/// The first line from position `s` on that contains `needle`.
pub open spec fn first_line_with(t: Seq<u8>, needle: Seq<u8>, s: int) -> Option<Seq<u8>>
    decreases t.len() - s + 1,
{
    if s < 0 || s > t.len() {
        None
    } else {
        let e = line_end(t, s);
        if has_sub(t.subrange(s, e), needle) {
            Some(t.subrange(s, e))
        } else if e >= t.len() {
            None
        } else {
            proof {
                lemma_line_end(t, s);
            }
            first_line_with(t, needle, e + 1)
        }
    }
}

/// The end of a line lies within the text, and no newline comes before it.
pub proof fn lemma_line_end(t: Seq<u8>, s: int)
    requires
        0 <= s <= t.len(),
    ensures
        s <= line_end(t, s) <= t.len(),
        forall|k: int| s <= k < line_end(t, s) ==> t[k] != 0x0a,
        line_end(t, s) < t.len() ==> t[line_end(t, s)] == 0x0a,
    decreases t.len() - s,
{
    if s < t.len() && t[s] != 0x0a {
        lemma_line_end(t, s + 1);
    }
}

fn find_line_end(t: &[u8], s: usize) -> (e: usize)
    requires
        s <= t@.len(),
    ensures
        e == line_end(t@, s as int),
{
    let mut i = s;
    while i < t.len() && t[i] != 0x0a
        invariant
            s <= i <= t@.len(),
            line_end(t@, s as int) == line_end(t@, i as int),
        decreases t.len() - i,
    {
        i = i + 1;
    }
    i
}

fn slice_copy(t: &[u8], s: usize, e: usize) -> (v: Vec<u8>)
    requires
        s <= e <= t@.len(),
    ensures
        v@ == t@.subrange(s as int, e as int),
{
    let mut v: Vec<u8> = Vec::new();
    let mut i = s;
    while i < e
        invariant
            s <= i <= e,
            e <= t@.len(),
            v@ == t@.subrange(s as int, i as int),
        decreases e - i,
    {
        v.push(t[i]);
        i = i + 1;
        assert(v@ =~= t@.subrange(s as int, i as int));
    }
    v
}

/// The first line of `t` containing `needle`.
fn find_line_with(t: &[u8], needle: &[u8]) -> (r: Option<Vec<u8>>)
    ensures
        match r {
            Some(l) => first_line_with(t@, needle@, 0) == Some(l@),
            None => first_line_with(t@, needle@, 0) is None,
        },
{
    let mut s: usize = 0;
    loop
        invariant
            s <= t@.len(),
            first_line_with(t@, needle@, 0) == first_line_with(t@, needle@, s as int),
        decreases t@.len() - s,
    {
        let e = find_line_end(t, s);
        proof { lemma_line_end(t@, s as int); }
        let line = slice_copy(t, s, e);
        if bytes_contain(line.as_slice(), needle) {
            return Some(line);
        }
        if e >= t.len() {
            return None;
        }
        s = e + 1;
    }
}

/// What the caller read from the system for the profile checks.
pub struct ProfileFacts {
    /// `/proc/self/maps`, when readable.
    pub maps: Option<String>,
    /// The user's secure settings file, when readable.
    pub settings_secure: Option<String>,
    /// The device-policy databases that could be read.
    pub device_policies: Vec<String>,
    /// Number of user directories, when the users directory is readable.
    pub user_dirs: Option<usize>,
}

/// The bytes of an optional text.
pub open spec fn opt_bytes(o: Option<String>) -> Option<Seq<u8>> {
    match o {
        Some(s) => Some(encode_utf8(s@)),
        None => None,
    }
}

fn contains_ascii(hay: &String, needle: &str) -> (b: bool)
    ensures
        b == has_sub(encode_utf8(hay@), needle.spec_bytes()),
{
    bytes_contain(hay.as_str().as_bytes(), needle.as_bytes())
}

/// Work-profile signs: a profiles directory, or a device-policy database
/// naming a managed profile or a device owner.
pub fn work_profile_indicated(profiles_dir_exists: bool, device_policies: Option<&str>) -> (b: bool)
    ensures
        b == (profiles_dir_exists || match device_policies {
            Some(p) => has_sub(p.spec_bytes(), "managedProfile".spec_bytes())
                || has_sub(p.spec_bytes(), "deviceOwner".spec_bytes()),
            None => false,
        }),
{
    if profiles_dir_exists {
        return true;
    }
    match device_policies {
        Some(p) => bytes_contain(p.as_bytes(), "managedProfile".as_bytes())
            || bytes_contain(p.as_bytes(), "deviceOwner".as_bytes()),
        None => false,
    }
}

/// Work profile and multi-user checks for one user.
pub struct ProfileChecker {
    current_user_id: i32,
    profile_type: ProfileType,
}

impl ProfileChecker {
    /// The user id.
    pub closed spec fn user_id(&self) -> i32 {
        self.current_user_id
    }

    /// The profile type.
    pub closed spec fn kind(&self) -> ProfileType {
        self.profile_type
    }

    /// A checker for `user_id`, given whether work-profile signs were found.
    pub fn new(user_id: i32, work_profile: bool) -> (c: Self)
        ensures
            c.user_id() == user_id,
            c.kind() == profile_type_spec(user_id, work_profile),
    {
        ProfileChecker { current_user_id: user_id, profile_type: Self::detect_profile_type(user_id, work_profile) }
    }

    /// The profile type of a user id.
    pub fn detect_profile_type(user_id: i32, work_profile: bool) -> (t: ProfileType)
        ensures
            t == profile_type_spec(user_id, work_profile),
    {
        if user_id == 0 {
            return ProfileType::Primary;
        }
        if work_profile {
            return ProfileType::WorkProfile;
        }
        if user_id >= 10 {
            return ProfileType::Secondary;
        }
        ProfileType::Unknown
    }

    /// Clipboard: a clipboard mapping outside the primary profile, or any
    /// work profile, is flagged.
    pub fn check_clipboard_access(&self, maps: &Option<String>) -> (r: Result<(), ProfileViolation>)
        ensures
            r == clipboard_result(self.kind(), opt_bytes(*maps)),
    {
        match maps {
            Some(m) => {
                if contains_ascii(m, "clipboard") && self.profile_type != ProfileType::Primary {
                    return Err(ProfileViolation::CrossProfileClipboard);
                }
            }
            None => {}
        }
        if self.profile_type == ProfileType::WorkProfile {
            return Err(ProfileViolation::WorkProfileDetected);
        }
        Ok(())
    }

    /// Keyboard: a default input method outside the primary profile is
    /// flagged.
    pub fn check_keyboard_access(&self, settings: &Option<String>) -> (r: Result<(), ProfileViolation>)
        ensures
            r == keyboard_result(self.kind(), opt_bytes(*settings)),
    {
        match settings {
            Some(s) => {
                let found = find_line_with(s.as_str().as_bytes(), "default_input_method".as_bytes());
                if found.is_some() && self.profile_type != ProfileType::Primary {
                    return Err(ProfileViolation::CrossProfileKeyboard);
                }
            }
            None => {}
        }
        Ok(())
    }

    /// Accessibility: enabled services outside the primary profile, or an
    /// accessibility mapping in the process, are flagged.
    pub fn check_accessibility_access(&self, settings: &Option<String>, maps: &Option<String>) -> (r: Result<(), ProfileViolation>)
        ensures
            r == accessibility_result(self.kind(), opt_bytes(*settings), opt_bytes(*maps)),
    {
        match settings {
            Some(s) => {
                match find_line_with(s.as_str().as_bytes(), "enabled_accessibility_services".as_bytes()) {
                    Some(line) => {
                        if !bytes_contain(line.as_slice(), "null".as_bytes()) && line.len() > 0 {
                            if self.profile_type != ProfileType::Primary {
                                return Err(ProfileViolation::CrossProfileAccessibility);
                            }
                        }
                    }
                    None => {}
                }
            }
            None => {}
        }
        match maps {
            Some(m) => {
                if contains_ascii(m, "accessibility") || contains_ascii(m, "a11y") {
                    return Err(ProfileViolation::CrossProfileAccessibility);
                }
            }
            None => {}
        }
        Ok(())
    }

    /// Device management: a device or profile owner in any policy database
    /// is flagged.
    pub fn check_device_management(&self, policies: &Vec<String>) -> (r: Result<(), ProfileViolation>)
        ensures
            r == device_management_result(policies@),
    {
        let mut i: usize = 0;
        while i < policies.len()
            invariant
                i <= policies@.len(),
                forall|j: int| 0 <= j < i ==> !#[trigger] managed_policy(encode_utf8(policies@[j]@)),
            decreases policies.len() - i,
        {
            let p = &policies[i];
            if contains_ascii(p, "device-owner") || contains_ascii(p, "deviceOwner")
                || contains_ascii(p, "profile-owner") || contains_ascii(p, "profileOwner") {
                assert(managed_policy(encode_utf8(policies@[i as int]@)));
                return Err(ProfileViolation::ManagedProfileActive);
            }
            i = i + 1;
        }
        Ok(())
    }

    /// Multiple users: more than one user directory while not user 0 is
    /// flagged.
    pub fn check_multiple_users(&self, user_dirs: Option<usize>) -> (r: Result<(), ProfileViolation>)
        ensures
            r == multiple_users_result(self.user_id(), user_dirs),
    {
        match user_dirs {
            Some(n) => {
                if n > 1 && self.current_user_id != 0 {
                    return Err(ProfileViolation::SecondaryUserDetected);
                }
            }
            None => {}
        }
        Ok(())
    }

    /// All profile checks, in order: only user 0 and no work profile pass,
    /// then the clipboard, keyboard, accessibility, device-management and
    /// multi-user checks must pass.
    pub fn comprehensive_check(&self, facts: &ProfileFacts) -> (r: Result<(), ProfileViolation>)
        ensures
            r == comprehensive_result(self.user_id(), self.kind(), *facts),
    {
        if self.current_user_id != 0 {
            return Err(ProfileViolation::SecondaryUserDetected);
        }
        if self.profile_type == ProfileType::WorkProfile {
            return Err(ProfileViolation::WorkProfileDetected);
        }
        let clip = self.check_clipboard_access(&facts.maps);
        if clip.is_err() {
            return clip;
        }
        let keyboard = self.check_keyboard_access(&facts.settings_secure);
        if keyboard.is_err() {
            return keyboard;
        }
        let access = self.check_accessibility_access(&facts.settings_secure, &facts.maps);
        if access.is_err() {
            return access;
        }
        let managed = self.check_device_management(&facts.device_policies);
        if managed.is_err() {
            return managed;
        }
        self.check_multiple_users(facts.user_dirs)
    }

    /// `User ID: <id>, Type: <type>` for logs.
    pub fn get_user_info(&self) -> (s: String)
        ensures
            s@ == "User ID: "@ + decimal_i64(self.user_id() as int) + ", Type: "@ + profile_type_name(self.kind()),
    {
        let mut s = "User ID: ".to_owned();
        let id = i32_to_decimal(self.current_user_id);
        s.append(id.as_str());
        s.append(", Type: ");
        s.append(match self.profile_type {
            ProfileType::Primary => "Primary",
            ProfileType::Secondary => "Secondary",
            ProfileType::WorkProfile => "WorkProfile",
            ProfileType::Unknown => "Unknown",
        });
        s
    }

    /// Safe: user 0 in the primary profile.
    pub fn is_safe_environment(&self) -> (b: bool)
        ensures
            b == (self.user_id() == 0 && self.kind() == ProfileType::Primary),
    {
        self.current_user_id == 0 && self.profile_type == ProfileType::Primary
    }
}

/// A policy database naming a device or profile owner.
pub open spec fn managed_policy(p: Seq<u8>) -> bool {
    has_sub(p, "device-owner".spec_bytes()) || has_sub(p, "deviceOwner".spec_bytes())
        || has_sub(p, "profile-owner".spec_bytes()) || has_sub(p, "profileOwner".spec_bytes())
}

/// The name of a profile type.
pub open spec fn profile_type_name(t: ProfileType) -> Seq<char> {
    match t {
        ProfileType::Primary => "Primary"@,
        ProfileType::Secondary => "Secondary"@,
        ProfileType::WorkProfile => "WorkProfile"@,
        ProfileType::Unknown => "Unknown"@,
    }
}

/// What the clipboard check answers.
pub open spec fn clipboard_result(kind: ProfileType, maps: Option<Seq<u8>>) -> Result<(), ProfileViolation> {
    if maps is Some && has_sub(maps->0, "clipboard".spec_bytes()) && kind != ProfileType::Primary {
        Err(ProfileViolation::CrossProfileClipboard)
    } else if kind == ProfileType::WorkProfile {
        Err(ProfileViolation::WorkProfileDetected)
    } else {
        Ok(())
    }
}

/// What the keyboard check answers.
pub open spec fn keyboard_result(kind: ProfileType, settings: Option<Seq<u8>>) -> Result<(), ProfileViolation> {
    if settings is Some && first_line_with(settings->0, "default_input_method".spec_bytes(), 0) is Some
        && kind != ProfileType::Primary {
        Err(ProfileViolation::CrossProfileKeyboard)
    } else {
        Ok(())
    }
}

/// What the accessibility check answers.
pub open spec fn accessibility_result(kind: ProfileType, settings: Option<Seq<u8>>, maps: Option<Seq<u8>>) -> Result<(), ProfileViolation> {
    if settings is Some && (first_line_with(settings->0, "enabled_accessibility_services".spec_bytes(), 0)
        matches Some(l) && !has_sub(l, "null".spec_bytes()) && l.len() > 0)
        && kind != ProfileType::Primary {
        Err(ProfileViolation::CrossProfileAccessibility)
    } else if maps is Some && (has_sub(maps->0, "accessibility".spec_bytes())
        || has_sub(maps->0, "a11y".spec_bytes())) {
        Err(ProfileViolation::CrossProfileAccessibility)
    } else {
        Ok(())
    }
}

/// Whether some policy database names a device or profile owner.
pub open spec fn any_managed_policy(policies: Seq<String>) -> bool {
    exists|i: int| 0 <= i < policies.len() && #[trigger] managed_policy(encode_utf8(policies[i]@))
}

/// What the device-management check answers.
pub open spec fn device_management_result(policies: Seq<String>) -> Result<(), ProfileViolation> {
    if any_managed_policy(policies) {
        Err(ProfileViolation::ManagedProfileActive)
    } else {
        Ok(())
    }
}

/// What the multi-user check answers.
pub open spec fn multiple_users_result(user_id: i32, user_dirs: Option<usize>) -> Result<(), ProfileViolation> {
    if user_dirs matches Some(n) && n > 1 && user_id != 0 {
        Err(ProfileViolation::SecondaryUserDetected)
    } else {
        Ok(())
    }
}

/// The answer of all profile checks in order: the first that fails.
pub open spec fn comprehensive_result(user_id: i32, kind: ProfileType, facts: ProfileFacts) -> Result<(), ProfileViolation> {
    if user_id != 0 {
        Err(ProfileViolation::SecondaryUserDetected)
    } else if kind == ProfileType::WorkProfile {
        Err(ProfileViolation::WorkProfileDetected)
    } else if clipboard_result(kind, opt_bytes(facts.maps)) is Err {
        clipboard_result(kind, opt_bytes(facts.maps))
    } else if keyboard_result(kind, opt_bytes(facts.settings_secure)) is Err {
        keyboard_result(kind, opt_bytes(facts.settings_secure))
    } else if accessibility_result(kind, opt_bytes(facts.settings_secure), opt_bytes(facts.maps)) is Err {
        accessibility_result(kind, opt_bytes(facts.settings_secure), opt_bytes(facts.maps))
    } else if device_management_result(facts.device_policies@) is Err {
        device_management_result(facts.device_policies@)
    } else {
        multiple_users_result(user_id, facts.user_dirs)
    }
}

/// An ASCII decimal digit.
pub open spec fn is_digit(c: u8) -> bool {
    0x30 <= c <= 0x39
}

/// The value of a string of decimal digits.
pub open spec fn digits_value(d: Seq<u8>) -> nat
    decreases d.len(),
{
    if d.len() == 0 { 0 } else { digits_value(d.drop_last()) * 10 + (d.last() - 0x30) as nat }
}

/// Every byte is a decimal digit.
pub open spec fn all_digits(d: Seq<u8>) -> bool {
    forall|i: int| 0 <= i < d.len() ==> is_digit(#[trigger] d[i])
}

/// The bytes after an optional leading `+` or `-`.
pub open spec fn unsigned_part(b: Seq<u8>) -> Seq<u8> {
    if b.len() > 0 && (b[0] == 0x2d || b[0] == 0x2b) { b.drop_first() } else { b }
}

/// What `str::parse::<i32>` gives: an optional `+` or `-`, then one or
/// more decimal digits, with a value that fits in an `i32`.
pub open spec fn parse_i32_spec(b: Seq<u8>) -> Option<i32> {
    let d = unsigned_part(b);
    if d.len() == 0 || !all_digits(d) {
        None
    } else if b[0] == 0x2d {
        if digits_value(d) <= 2147483648 { Some((-digits_value(d)) as i32) } else { None }
    } else if digits_value(d) <= 2147483647 {
        Some(digits_value(d) as i32)
    } else {
        None
    }
}

/// A prefix of a digit string is worth no more than the whole.
proof fn lemma_digits_prefix(d: Seq<u8>, i: int)
    requires
        0 <= i <= d.len(),
    ensures
        digits_value(d.take(i)) <= digits_value(d),
    decreases d.len() - i,
{
    if i < d.len() {
        lemma_digits_prefix(d, i + 1);
        assert(d.take(i + 1).drop_last() =~= d.take(i));
    } else {
        assert(d.take(i) =~= d);
    }
}

/// `str::parse::<i32>` on the bytes of a string.
pub fn parse_i32(b: &[u8]) -> (r: Option<i32>)
    ensures
        r == parse_i32_spec(b@),
{
    let n = b.len();
    if n == 0 {
        return None;
    }
    let neg = b[0] == 0x2d;
    let start: usize = if b[0] == 0x2d || b[0] == 0x2b { 1 } else { 0 };
    let ghost d = if start == 1 { b@.drop_first() } else { b@ };
    assert(d =~= b@.subrange(start as int, n as int));
    if start == n {
        return None;
    }
    let mut acc: u64 = 0;
    let mut i: usize = start;
    while i < n
        invariant
            start <= i <= n,
            n == b@.len(),
            d == b@.subrange(start as int, n as int),
            d == unsigned_part(b@),
            n > 0,
            d.len() > 0,
            acc == digits_value(d.take(i - start)),
            acc <= 2147483648,
            forall|j: int| 0 <= j < i - start ==> is_digit(#[trigger] d[j]),
        decreases n - i,
    {
        let c = b[i];
        proof {
            assert(d[i - start] == c);
            assert(d.take(i - start + 1).drop_last() =~= d.take(i - start));
        }
        if c < 0x30 || c > 0x39 {
            assert(!is_digit(d[i - start]));
            return None;
        }
        let next: u64 = acc * 10 + (c - 0x30) as u64;
        if next > 2147483648 {
            proof {
                let k = i - start + 1;
                assert(d.take(k).last() == c);
                assert(digits_value(d.take(k)) == next);
                lemma_digits_prefix(d, k);
            }
            return None;
        }
        proof {
            let k = i - start + 1;
            assert(d.take(k).last() == c);
        }
        acc = next;
        i = i + 1;
    }
    assert(d.take(n - start) =~= d);
    if neg {
        Some((0i64 - acc as i64) as i32)
    } else if acc <= 2147483647 {
        Some(acc as i32)
    } else {
        None
    }
}

/// The first position at or after `from` where `needle` occurs in `hay`,
/// or the length of `hay` when there is none.
pub open spec fn first_occ(hay: Seq<u8>, needle: Seq<u8>, from: int) -> int
    decreases hay.len() - from,
{
    if from < 0 || from >= hay.len() || from + needle.len() > hay.len() {
        hay.len() as int
    } else if occurs_at(hay, needle, from) {
        from
    } else {
        first_occ(hay, needle, from + 1)
    }
}

proof fn lemma_first_occ(hay: Seq<u8>, needle: Seq<u8>, from: int)
    requires
        0 <= from <= hay.len(),
        needle.len() > 0,
    ensures
        from <= first_occ(hay, needle, from) <= hay.len(),
        first_occ(hay, needle, from) < hay.len() ==> occurs_at(hay, needle, first_occ(hay, needle, from)),
    decreases hay.len() - from,
{
    if from < hay.len() && from + needle.len() <= hay.len() && !occurs_at(hay, needle, from) {
        lemma_first_occ(hay, needle, from + 1);
    }
}

fn matches_at(hay: &[u8], needle: &[u8], i: usize) -> (b: bool)
    requires
        i + needle@.len() <= hay@.len(),
    ensures
        b == occurs_at(hay@, needle@, i as int),
{
    let n = hay.len();
    let mut j: usize = 0;
    while j < needle.len()
        invariant
            n == hay@.len(),
            i + needle@.len() <= hay@.len(),
            j <= needle@.len(),
            forall|t: int| 0 <= t < j ==> hay@[i + t] == needle@[t],
        decreases needle.len() - j,
    {
        if hay[i + j] != needle[j] {
            proof {
                assert(hay@.subrange(i as int, i + needle@.len())[j as int] == hay@[i + j]);
            }
            return false;
        }
        j = j + 1;
    }
    assert(hay@.subrange(i as int, i + needle@.len()) =~= needle@);
    true
}

/// Where `needle` next occurs in `hay` from `from` on.
fn find_from(hay: &[u8], needle: &[u8], from: usize) -> (r: usize)
    requires
        from <= hay@.len(),
    ensures
        r == first_occ(hay@, needle@, from as int),
{
    let n = hay.len();
    let mut i = from;
    while i < n && needle.len() <= n - i
        invariant
            n == hay@.len(),
            from <= i <= n,
            first_occ(hay@, needle@, from as int) == first_occ(hay@, needle@, i as int),
        decreases n - i,
    {
        if needle.len() == 0 {
            assert(hay@.subrange(i as int, i as int) =~= needle@);
        }
        if matches_at(hay, needle, i) {
            return i;
        }
        i = i + 1;
    }
    n
}

/// The line of `t` starting at `s`, without its line ending: a `\r` is
/// dropped only when a `\n` follows it, as `str::lines` does.
pub open spec fn line_at(t: Seq<u8>, s: int) -> Seq<u8> {
    let e = line_end(t, s);
    let raw = t.subrange(s, e);
    if e < t.len() && raw.len() > 0 && raw.last() == 0x0d { raw.drop_last() } else { raw }
}

/// The bytes of `user-`.
pub open spec fn user_marker() -> Seq<u8> {
    seq![0x75u8, 0x73u8, 0x65u8, 0x72u8, 0x2du8]
}

/// The bytes of `/data/user/`.
pub open spec fn data_user_marker() -> Seq<u8> {
    seq![0x2fu8, 0x64u8, 0x61u8, 0x74u8, 0x61u8, 0x2fu8, 0x75u8, 0x73u8, 0x65u8, 0x72u8, 0x2fu8]
}

/// The user id a cgroup line names: the digits after the first `user-`, up
/// to a `.` or the next `user-`.
pub open spec fn cgroup_line_id(line: Seq<u8>) -> Option<i32> {
    let pat = user_marker();
    if has_sub(line, pat) {
        let p = first_occ(line, pat, 0);
        let part = line.subrange(p + 5, first_occ(line, pat, p + 5));
        parse_i32_spec(part.subrange(0, first_occ(part, seq![0x2eu8], 0)))
    } else {
        None
    }
}

/// The first id named by a line of `t` from position `s` on.
pub open spec fn cgroup_user_id(t: Seq<u8>, s: int) -> Option<i32>
    decreases t.len() - s + 1,
{
    if s < 0 || s >= t.len() {
        None
    } else if cgroup_line_id(line_at(t, s)) is Some {
        cgroup_line_id(line_at(t, s))
    } else if line_end(t, s) >= t.len() {
        None
    } else {
        proof {
            lemma_line_end(t, s);
        }
        cgroup_user_id(t, line_end(t, s) + 1)
    }
}

/// The user id in an app data path `/data/user/<id>/...`.
pub open spec fn path_user_id(path: Seq<u8>) -> Option<i32> {
    let pat = data_user_marker();
    if has_sub(path, pat) {
        let p = first_occ(path, pat, 0);
        let part = path.subrange(p + 11, first_occ(path, pat, p + 11));
        parse_i32_spec(part.subrange(0, first_occ(part, seq![0x2fu8], 0)))
    } else {
        None
    }
}

/// The user id, from the first source that names one: the `USER_ID`
/// variable, the process cgroups, the working directory, the uid range
/// (`1UUUAAA` for user `UUU`); otherwise user 0.
pub open spec fn current_user_id_spec(env_user_id: Option<Seq<u8>>, cgroup: Option<Seq<u8>>, cwd: Option<Seq<u8>>, uid: u32) -> i32 {
    if env_user_id is Some && parse_i32_spec(env_user_id->0) is Some {
        parse_i32_spec(env_user_id->0)->0
    } else if cgroup is Some && cgroup_user_id(cgroup->0, 0) is Some {
        cgroup_user_id(cgroup->0, 0)->0
    } else if cwd is Some && path_user_id(cwd->0) is Some {
        path_user_id(cwd->0)->0
    } else if uid >= 1000000 {
        ((uid / 100000) % 1000) as i32
    } else {
        0
    }
}

/// The id named between the first `pat` and what follows it, up to `stop`.
fn id_after(t: &[u8], pat: &[u8], stop: u8) -> (r: Option<i32>)
    requires
        pat@.len() > 0,
    ensures
        r == (if has_sub(t@, pat@) {
            let p = first_occ(t@, pat@, 0);
            let part = t@.subrange(p + pat@.len(), first_occ(t@, pat@, p + pat@.len()));
            parse_i32_spec(part.subrange(0, first_occ(part, seq![stop], 0)))
        } else {
            None
        }),
{
    let p = find_from(t, pat, 0);
    proof { lemma_first_occ(t@, pat@, 0); }
    if p >= t.len() {
        proof {
            assert forall|i: int| !#[trigger] occurs_at(t@, pat@, i) by {
                if occurs_at(t@, pat@, i) {
                    lemma_first_occ_le(t@, pat@, 0, i);
                }
            }
        }
        return None;
    }
    assert(occurs_at(t@, pat@, p as int));
    let from = p + pat.len();
    let q = find_from(t, pat, from);
    proof { lemma_first_occ(t@, pat@, from as int); }
    let part = slice_copy(t, from, q);
    let stop_seq: [u8; 1] = [stop];
    assert(stop_seq@ =~= seq![stop]);
    let e = find_from(part.as_slice(), &stop_seq, 0);
    proof { lemma_first_occ(part@, seq![stop], 0); }
    let id = slice_copy(part.as_slice(), 0, e);
    parse_i32(id.as_slice())
}

/// No occurrence lies between `from` and the first one found from there.
proof fn lemma_first_occ_le(hay: Seq<u8>, needle: Seq<u8>, from: int, i: int)
    requires
        0 <= from <= i,
        occurs_at(hay, needle, i),
    ensures
        first_occ(hay, needle, from) <= i,
    decreases i - from,
{
    if from < hay.len() && from + needle.len() <= hay.len() && !occurs_at(hay, needle, from) {
        lemma_first_occ_le(hay, needle, from + 1, i);
    }
}

fn cgroup_id(t: &[u8]) -> (r: Option<i32>)
    ensures
        r == cgroup_user_id(t@, 0),
{
    let mut s: usize = 0;
    let user: [u8; 5] = [0x75, 0x73, 0x65, 0x72, 0x2d];
    assert(user@ =~= user_marker());
    loop
        invariant
            s <= t@.len(),
            user@ == user_marker(),
            cgroup_user_id(t@, 0) == cgroup_user_id(t@, s as int),
        decreases t@.len() - s,
    {
        if s >= t.len() {
            return None;
        }
        let e = find_line_end(t, s);
        proof { lemma_line_end(t@, s as int); }
        let mut end = e;
        if e < t.len() && e > s && t[e - 1] == 0x0d {
            end = e - 1;
        }
        let line = slice_copy(t, s, end);
        proof {
            let raw = t@.subrange(s as int, e as int);
            if e < t@.len() && raw.len() > 0 && raw.last() == 0x0d {
                assert(line@ =~= raw.drop_last());
            } else {
                assert(line@ =~= raw);
            }
            assert(line@ == line_at(t@, s as int));
        }
        let id = id_after(line.as_slice(), &user, 0x2e);
        if id.is_some() {
            return id;
        }
        if e >= t.len() {
            return None;
        }
        s = e + 1;
    }
}

impl ProfileChecker {
    /// The current user id, from what the caller read: the `USER_ID`
    /// variable, `/proc/self/cgroup`, the working directory and the uid.
    pub fn get_current_user_id(env_user_id: &Option<String>, cgroup: &Option<String>, cwd: &Option<String>, uid: u32) -> (id: i32)
        ensures
            id == current_user_id_spec(opt_bytes(*env_user_id), opt_bytes(*cgroup), opt_bytes(*cwd), uid),
    {
        if let Some(v) = env_user_id {
            if let Some(id) = parse_i32(v.as_str().as_bytes()) {
                return id;
            }
        }
        if let Some(c) = cgroup {
            if let Some(id) = cgroup_id(c.as_str().as_bytes()) {
                return id;
            }
        }
        if let Some(p) = cwd {
            let marker: [u8; 11] = [0x2f, 0x64, 0x61, 0x74, 0x61, 0x2f, 0x75, 0x73, 0x65, 0x72, 0x2f];
            assert(marker@ =~= data_user_marker());
            if let Some(id) = id_after(p.as_str().as_bytes(), &marker, 0x2f) {
                return id;
            }
        }
        if uid >= 1000000 {
            return ((uid / 100000) % 1000) as i32;
        }
        0
    }
}

} // verus!
