//! Device integrity decisions: debugger, root, emulator and hook signs,
//! decided from what the caller read from the system (status and cpu
//! files, process maps, environment, which indicator paths exist).
use vstd::prelude::*;
use vstd::utf8::encode_utf8;
use vstd::string::StringSliceAdditionalSpecFns;
use crate::security::{SecurityChecker, SecurityViolation};
use crate::text::{bytes_contain, has_sub};

verus! {

/// The characters of a string, one by one.
fn chars_of(s: &str) -> (v: Vec<char>)
    ensures
        v@ == s@,
{
    let mut v: Vec<char> = Vec::new();
    for c in iter: s.chars()
        invariant
            v@ == iter.seq().take(iter.index() as int),
    {
        v.push(c);
    }
    v
}

/// `char::is_whitespace`: the Unicode `White_Space` characters.
pub open spec fn is_space(c: char) -> bool {
    let u = c as u32;
    (9 <= u <= 13) || u == 32 || u == 0x85 || u == 0xa0 || u == 0x1680 || (0x2000 <= u <= 0x200a)
        || u == 0x2028 || u == 0x2029 || u == 0x202f || u == 0x205f || u == 0x3000
}

fn space(c: char) -> (b: bool)
    ensures
        b == is_space(c),
{
    let u = c as u32;
    (9 <= u && u <= 13) || u == 32 || u == 0x85 || u == 0xa0 || u == 0x1680 || (0x2000 <= u && u <= 0x200a)
        || u == 0x2028 || u == 0x2029 || u == 0x202f || u == 0x205f || u == 0x3000
}

/// The first index at or after `i` whose character is (`ws`) or is not
/// (`!ws`) white space; the length when there is none.
pub open spec fn scan(t: Seq<char>, i: int, ws: bool) -> int
    decreases t.len() - i,
{
    if i < 0 || i >= t.len() {
        t.len() as int
    } else if is_space(t[i]) == ws {
        i
    } else {
        scan(t, i + 1, ws)
    }
}

proof fn lemma_scan(t: Seq<char>, i: int, ws: bool)
    requires
        0 <= i <= t.len(),
    ensures
        i <= scan(t, i, ws) <= t.len(),
    decreases t.len() - i,
{
    if i < t.len() && is_space(t[i]) != ws {
        lemma_scan(t, i + 1, ws);
    }
}

fn scan_exec(t: &Vec<char>, i: usize, ws: bool) -> (r: usize)
    requires
        i <= t@.len(),
    ensures
        r == scan(t@, i as int, ws),
{
    let mut k = i;
    while k < t.len() && space(t[k]) != ws
        invariant
            i <= k <= t@.len(),
            scan(t@, i as int, ws) == scan(t@, k as int, ws),
        decreases t@.len() - k,
    {
        k = k + 1;
    }
    k
}

/// The second white-space separated word of `line`, as
/// `split_whitespace().nth(1)` finds it.
pub open spec fn second_word(line: Seq<char>) -> Option<Seq<char>> {
    let s1 = scan(line, 0, false);
    let s2 = scan(line, scan(line, s1, true), false);
    if s2 >= line.len() { None } else { Some(line.subrange(s2, scan(line, s2, true))) }
}

/// The characters of `TracerPid:`.
pub open spec fn tracer_tag() -> Seq<char> {
    seq!['T', 'r', 'a', 'c', 'e', 'r', 'P', 'i', 'd', ':']
}

/// A status line that names a tracer other than pid 0.
pub open spec fn tracer_line(line: Seq<char>) -> bool {
    &&& line.len() >= 10
    &&& line.take(10) == tracer_tag()
    &&& second_word(line) matches Some(w) && w != seq!['0']
}

/// Where the line starting at `s` ends: the next `\n` or the end.
pub open spec fn char_line_end(t: Seq<char>, s: int) -> int
    decreases t.len() - s,
{
    if s < 0 || s >= t.len() { t.len() as int } else if t[s] == '\n' { s } else { char_line_end(t, s + 1) }
}

/// The end of a line lies within the text, at a newline when before the end.
pub proof fn lemma_char_line_end(t: Seq<char>, s: int)
    requires
        0 <= s <= t.len(),
    ensures
        s <= char_line_end(t, s) <= t.len(),
        char_line_end(t, s) < t.len() ==> t[char_line_end(t, s)] == '\n',
    decreases t.len() - s,
{
    if s < t.len() && t[s] != '\n' {
        lemma_char_line_end(t, s + 1);
    }
}

/// The line starting at `s` as `str::lines` gives it: without its `\n`,
/// and without a `\r` that stood just before that `\n`.
pub open spec fn char_line_at(t: Seq<char>, s: int) -> Seq<char> {
    let e = char_line_end(t, s);
    let raw = t.subrange(s, e);
    if e < t.len() && raw.len() > 0 && raw.last() == '\r' { raw.drop_last() } else { raw }
}

/// Some line of `t` from position `s` on names a tracer.
pub open spec fn traced_from(t: Seq<char>, s: int) -> bool
    decreases t.len() - s + 1,
{
    if s < 0 || s >= t.len() {
        false
    } else if tracer_line(char_line_at(t, s)) {
        true
    } else if char_line_end(t, s) >= t.len() {
        false
    } else {
        proof {
            lemma_char_line_end(t, s);
        }
        traced_from(t, char_line_end(t, s) + 1)
    }
}

fn tracer_line_exec(t: &Vec<char>, s: usize, e: usize) -> (b: bool)
    requires
        s <= e <= t@.len(),
    ensures
        b == tracer_line(t@.subrange(s as int, e as int)),
{
    let ghost line = t@.subrange(s as int, e as int);
    let tag: [char; 10] = ['T', 'r', 'a', 'c', 'e', 'r', 'P', 'i', 'd', ':'];
    assert(tag@ =~= tracer_tag());
    if e - s < 10 {
        return false;
    }
    let mut j: usize = 0;
    while j < 10
        invariant
            s + 10 <= e <= t@.len(),
            line == t@.subrange(s as int, e as int),
            tag@ == tracer_tag(),
            j <= 10,
            forall|k: int| 0 <= k < j ==> line[k] == tag@[k],
        decreases 10 - j,
    {
        if t[s + j] != tag[j] {
            assert(line.take(10)[j as int] != tracer_tag()[j as int]);
            return false;
        }
        j = j + 1;
    }
    assert(line.take(10) =~= tracer_tag());
    let v = slice_chars(t, s, e);
    proof {
        lemma_scan(line, 0, false);
    }
    let s1 = scan_exec(&v, 0, false);
    proof {
        lemma_scan(line, s1 as int, true);
    }
    let e1 = scan_exec(&v, s1, true);
    proof {
        lemma_scan(line, e1 as int, false);
    }
    let s2 = scan_exec(&v, e1, false);
    if s2 >= v.len() {
        return false;
    }
    proof {
        lemma_scan(line, s2 as int, true);
    }
    let e2 = scan_exec(&v, s2, true);
    let is_zero = e2 - s2 == 1 && v[s2] == '0';
    proof {
        let w = line.subrange(s2 as int, e2 as int);
        if is_zero {
            assert(w =~= seq!['0']);
        } else if w.len() == 1 {
            assert(w[0] != '0');
        }
    }
    !is_zero
}

fn slice_chars(t: &Vec<char>, s: usize, e: usize) -> (v: Vec<char>)
    requires
        s <= e <= t@.len(),
    ensures
        v@ == t@.subrange(s as int, e as int),
{
    let mut v: Vec<char> = Vec::new();
    let mut i = s;
    while i < e
        invariant
            s <= i <= e,
            e <= t@.len(),
            v@ == t@.subrange(s as int, i as int),
        decreases e - i,
    {
        v.push(t[i]);
        i = i + 1;
        assert(v@ =~= t@.subrange(s as int, i as int));
    }
    v
}

fn traced(t: &Vec<char>) -> (b: bool)
    ensures
        b == traced_from(t@, 0),
{
    let mut s: usize = 0;
    loop
        invariant
            s <= t@.len(),
            traced_from(t@, 0) == traced_from(t@, s as int),
        decreases t@.len() - s,
    {
        if s >= t.len() {
            return false;
        }
        let mut e = s;
        while e < t.len() && t[e] != '\n'
            invariant
                s <= e <= t@.len(),
                char_line_end(t@, s as int) == char_line_end(t@, e as int),
            decreases t@.len() - e,
        {
            e = e + 1;
        }
        proof { lemma_char_line_end(t@, s as int); }
        let end = if e < t.len() && e > s && t[e - 1] == '\r' { e - 1 } else { e };
        proof {
            let raw = t@.subrange(s as int, e as int);
            if e < t@.len() && raw.len() > 0 && raw.last() == '\r' {
                assert(t@.subrange(s as int, end as int) =~= raw.drop_last());
            } else {
                assert(t@.subrange(s as int, end as int) =~= raw);
            }
        }
        if tracer_line_exec(t, s, end) {
            return true;
        }
        if e >= t.len() {
            return false;
        }
        s = e + 1;
    }
}

/// What `str::to_lowercase` returns for a string.
pub uninterp spec fn lowercase(s: Seq<char>) -> Seq<char>;

/// Calls `str::to_lowercase`; the result is named by `lowercase`.
#[verifier::external_body]
fn to_lowercase(s: &str) -> (r: String)
    ensures
        r@ == lowercase(s@),
{
    s.to_lowercase()
}

/// `needle` occurs in the lowercased text.
pub open spec fn lower_has(text: Seq<char>, needle: &str) -> bool {
    has_sub(encode_utf8(lowercase(text)), needle.spec_bytes())
}

/// Hook frameworks named in the process maps.
pub open spec fn hooked_maps(maps: Seq<char>) -> bool {
    lower_has(maps, "frida") || lower_has(maps, "xposed") || lower_has(maps, "substrate")
        || lower_has(maps, "libhook") || lower_has(maps, "injector") || lower_has(maps, "frida-agent")
        || lower_has(maps, "frida-gadget") || lower_has(maps, "xhook")
}

/// An environment variable that points at Frida.
pub open spec fn frida_var(kv: (String, String)) -> bool {
    has_sub(encode_utf8(kv.0@), "FRIDA".spec_bytes()) || has_sub(encode_utf8(kv.1@), "frida".spec_bytes())
}

/// Emulator signatures in the cpu description.
pub open spec fn emulated_cpu(cpu: Seq<char>) -> bool {
    lower_has(cpu, "goldfish") || lower_has(cpu, "ranchu") || lower_has(cpu, "vbox")
        || lower_has(cpu, "qemu") || lower_has(cpu, "virtual")
}

/// Paths whose presence means a rooted device: su binaries, Magisk, and
/// root management apps.
pub open spec fn root_paths() -> Seq<Seq<char>> {
    seq![
        "/system/app/Superuser.apk"@, "/sbin/su"@, "/system/bin/su"@, "/system/xbin/su"@,
        "/data/local/xbin/su"@, "/data/local/bin/su"@, "/system/sd/xbin/su"@,
        "/system/bin/failsafe/su"@, "/data/local/su"@, "/su/bin/su"@, "/system/xbin/daemonsu"@,
        "/system/etc/init.d/99SuperSUDaemon"@, "/dev/com.koushikdutta.superuser.daemon/"@,
        "/system/app/SuperSU"@, "/system/app/SuperSU.apk"@, "/sbin/.magisk"@,
        "/data/data/com.noshufou.android.su"@, "/data/data/com.thirdparty.superuser"@,
        "/data/data/eu.chainfire.supersu"@, "/data/data/com.koushikdutta.superuser"@,
        "/data/data/com.topjohnwu.magisk"@, "/data/data/com.kingroot.kinguser"@,
    ]
}

/// Paths that exist only on emulators.
pub open spec fn emulator_paths() -> Seq<Seq<char>> {
    seq![
        "/dev/socket/qemud"@, "/dev/qemu_pipe"@, "/system/lib/libc_malloc_debug_qemu.so"@,
        "/sys/qemu_trace"@, "/system/bin/qemu-props"@,
    ]
}

/// Some existing path is one of `paths`.
pub open spec fn any_listed(existing: Seq<String>, paths: Seq<Seq<char>>) -> bool {
    exists|i: int| 0 <= i < existing.len() && paths.contains(#[trigger] existing[i]@)
}

fn same_chars(a: &Vec<char>, b: &str) -> (r: bool)
    ensures
        r == (a@ == b@),
{
    let bv = chars_of(b);
    if a.len() != bv.len() {
        return false;
    }
    let mut i: usize = 0;
    while i < a.len()
        invariant
            a@.len() == bv@.len(),
            bv@ == b@,
            i <= a@.len(),
            forall|k: int| 0 <= k < i ==> a@[k] == bv@[k],
        decreases a@.len() - i,
    {
        if a[i] != bv[i] {
            return false;
        }
        i = i + 1;
    }
    assert(a@ =~= bv@);
    true
}

fn listed(p: &String, paths: &Vec<&str>) -> (r: bool)
    ensures
        r == paths@.map_values(|s: &str| s@).contains(p@),
{
    let pc = chars_of(p.as_str());
    let ghost views = paths@.map_values(|s: &str| s@);
    let mut i: usize = 0;
    while i < paths.len()
        invariant
            pc@ == p@,
            views == paths@.map_values(|s: &str| s@),
            i <= paths@.len(),
            forall|k: int| 0 <= k < i ==> views[k] != p@,
        decreases paths@.len() - i,
    {
        if same_chars(&pc, paths[i]) {
            assert(views[i as int] == p@);
            return true;
        }
        i = i + 1;
    }
    false
}

fn any_existing(existing: &Vec<String>, paths: &Vec<&str>) -> (r: bool)
    ensures
        r == any_listed(existing@, paths@.map_values(|s: &str| s@)),
{
    let mut i: usize = 0;
    while i < existing.len()
        invariant
            i <= existing@.len(),
            forall|k: int| 0 <= k < i ==> !paths@.map_values(|s: &str| s@).contains(#[trigger] existing@[k]@),
        decreases existing@.len() - i,
    {
        if listed(&existing[i], paths) {
            return true;
        }
        i = i + 1;
    }
    false
}

/// The paths to probe for root, in the order they are checked.
pub fn root_indicator_paths() -> (v: Vec<&'static str>)
    ensures
        v@.map_values(|s: &str| s@) == root_paths(),
{
    let v = vec![
        "/system/app/Superuser.apk", "/sbin/su", "/system/bin/su", "/system/xbin/su",
        "/data/local/xbin/su", "/data/local/bin/su", "/system/sd/xbin/su",
        "/system/bin/failsafe/su", "/data/local/su", "/su/bin/su", "/system/xbin/daemonsu",
        "/system/etc/init.d/99SuperSUDaemon", "/dev/com.koushikdutta.superuser.daemon/",
        "/system/app/SuperSU", "/system/app/SuperSU.apk", "/sbin/.magisk",
        "/data/data/com.noshufou.android.su", "/data/data/com.thirdparty.superuser",
        "/data/data/eu.chainfire.supersu", "/data/data/com.koushikdutta.superuser",
        "/data/data/com.topjohnwu.magisk", "/data/data/com.kingroot.kinguser",
    ];
    assert(v@.map_values(|s: &str| s@) =~= root_paths());
    v
}

/// The paths to probe for an emulator.
pub fn emulator_indicator_paths() -> (v: Vec<&'static str>)
    ensures
        v@.map_values(|s: &str| s@) == emulator_paths(),
{
    let v = vec![
        "/dev/socket/qemud", "/dev/qemu_pipe", "/system/lib/libc_malloc_debug_qemu.so",
        "/sys/qemu_trace", "/system/bin/qemu-props",
    ];
    assert(v@.map_values(|s: &str| s@) =~= emulator_paths());
    v
}

fn lower_contains(lower: &String, needle: &str) -> (b: bool)
    ensures
        b == has_sub(encode_utf8(lower@), needle.spec_bytes()),
{
    bytes_contain(lower.as_str().as_bytes(), needle.as_bytes())
}

impl SecurityChecker {
    /// Debugger: a `TracerPid:` line in the process status naming a pid
    /// other than 0.
    pub fn check_debugger(&self, status: &Option<String>) -> (r: Result<(), SecurityViolation>)
        ensures
            r == (if status matches Some(s) && traced_from(s@, 0) {
                Err(SecurityViolation::DebuggerDetected)
            } else {
                Ok(())
            }),
    {
        if let Some(s) = status {
            let t = chars_of(s.as_str());
            if traced(&t) {
                return Err(SecurityViolation::DebuggerDetected);
            }
        }
        Ok(())
    }

    /// Root: any of the root indicator paths exists.
    pub fn check_root(&self, existing: &Vec<String>) -> (r: Result<(), SecurityViolation>)
        ensures
            r == (if any_listed(existing@, root_paths()) {
                Err(SecurityViolation::RootDetected)
            } else {
                Ok(())
            }),
    {
        let paths = root_indicator_paths();
        if any_existing(existing, &paths) {
            return Err(SecurityViolation::RootDetected);
        }
        Ok(())
    }

    /// Emulator: an emulator signature in the lowercased cpu description,
    /// or an emulator-only path that exists.
    pub fn check_emulator(&self, cpu_info: &Option<String>, existing: &Vec<String>) -> (r: Result<(), SecurityViolation>)
        ensures
            r == (if (cpu_info matches Some(c) && emulated_cpu(c@)) || any_listed(existing@, emulator_paths()) {
                Err(SecurityViolation::EmulatorDetected)
            } else {
                Ok(())
            }),
    {
        if let Some(c) = cpu_info {
            let lower = to_lowercase(c.as_str());
            if lower_contains(&lower, "goldfish") || lower_contains(&lower, "ranchu")
                || lower_contains(&lower, "vbox") || lower_contains(&lower, "qemu")
                || lower_contains(&lower, "virtual") {
                return Err(SecurityViolation::EmulatorDetected);
            }
        }
        let paths = emulator_indicator_paths();
        if any_existing(existing, &paths) {
            return Err(SecurityViolation::EmulatorDetected);
        }
        Ok(())
    }

    /// Hooks: a hook framework in the lowercased process maps, or an
    /// environment variable naming Frida.
    pub fn check_hooks(&self, maps: &Option<String>, env_vars: &Vec<(String, String)>) -> (r: Result<(), SecurityViolation>)
        ensures
            r == (if (maps matches Some(m) && hooked_maps(m@))
                || (exists|i: int| 0 <= i < env_vars@.len() && #[trigger] frida_var(env_vars@[i])) {
                Err(SecurityViolation::HookDetected)
            } else {
                Ok(())
            }),
    {
        if let Some(m) = maps {
            let lower = to_lowercase(m.as_str());
            if lower_contains(&lower, "frida") || lower_contains(&lower, "xposed")
                || lower_contains(&lower, "substrate") || lower_contains(&lower, "libhook")
                || lower_contains(&lower, "injector") || lower_contains(&lower, "frida-agent")
                || lower_contains(&lower, "frida-gadget") || lower_contains(&lower, "xhook") {
                return Err(SecurityViolation::HookDetected);
            }
        }
        let mut i: usize = 0;
        while i < env_vars.len()
            invariant
                i <= env_vars@.len(),
                forall|k: int| 0 <= k < i ==> !#[trigger] frida_var(env_vars@[k]),
            decreases env_vars@.len() - i,
        {
            let (k, v) = &env_vars[i];
            if bytes_contain(k.as_str().as_bytes(), "FRIDA".as_bytes())
                || bytes_contain(v.as_str().as_bytes(), "frida".as_bytes()) {
                assert(frida_var(env_vars@[i as int]));
                return Err(SecurityViolation::HookDetected);
            }
            i = i + 1;
        }
        Ok(())
    }
}

/// What the system reads for the device checks.
pub struct DeviceFacts {
    /// `/proc/self/status`, when readable.
    pub status: Option<String>,
    /// `/proc/cpuinfo`, when readable.
    pub cpu_info: Option<String>,
    /// `/proc/self/maps`, when readable.
    pub maps: Option<String>,
    /// The environment.
    pub env_vars: Vec<(String, String)>,
    /// The indicator paths that exist.
    pub existing_paths: Vec<String>,
}

/// The answer of all device checks in order: the first that fails.
pub open spec fn device_check_result(f: DeviceFacts) -> Result<(), SecurityViolation> {
    if f.status matches Some(s) && traced_from(s@, 0) {
        Err(SecurityViolation::DebuggerDetected)
    } else if any_listed(f.existing_paths@, root_paths()) {
        Err(SecurityViolation::RootDetected)
    } else if (f.cpu_info matches Some(c) && emulated_cpu(c@)) || any_listed(f.existing_paths@, emulator_paths()) {
        Err(SecurityViolation::EmulatorDetected)
    } else if (f.maps matches Some(m) && hooked_maps(m@))
        || (exists|i: int| 0 <= i < f.env_vars@.len() && #[trigger] frida_var(f.env_vars@[i])) {
        Err(SecurityViolation::HookDetected)
    } else {
        Ok(())
    }
}

impl SecurityChecker {
    /// All device checks in order: debugger, root, emulator, hooks, then the
    /// signature, binary and memory integrity checks.
    pub fn comprehensive_check(&self, facts: &DeviceFacts) -> (r: Result<(), SecurityViolation>)
        ensures
            r == device_check_result(*facts),
    {
        let d = self.check_debugger(&facts.status);
        if d.is_err() {
            return d;
        }
        let root = self.check_root(&facts.existing_paths);
        if root.is_err() {
            return root;
        }
        let emu = self.check_emulator(&facts.cpu_info, &facts.existing_paths);
        if emu.is_err() {
            return emu;
        }
        let hooks = self.check_hooks(&facts.maps, &facts.env_vars);
        if hooks.is_err() {
            return hooks;
        }
        let sig = self.verify_signature();
        if sig.is_err() {
            return sig;
        }
        let integrity = self.verify_integrity();
        if integrity.is_err() {
            return integrity;
        }
        let memory = self.check_memory_integrity();
        if memory.is_err() {
            return memory;
        }
        Ok(())
    }
}

} // verus!
