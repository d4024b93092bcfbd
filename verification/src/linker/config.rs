//! The linker's configuration, from the environment and the auxiliary
//! vector.
use vstd::prelude::*;
use vstd::string::StringSliceAdditionalSpecFns;
use crate::memory::{copy_range, bytes_eq};
use crate::utils::{push_bytes, to_hex, spec_hex};
use crate::auxv::AT_SECURE;
use crate::kernel_block::{KernelBlock, spec_getenv, spec_getauxval, strs_view};

verus! {

/// The colon-separated fields of `rest`, the first of them continuing `cur`.
pub open spec fn split_colon_acc(cur: Seq<u8>, rest: Seq<u8>) -> Seq<Seq<u8>>
    decreases rest.len(),
{
    if rest.len() == 0 {
        seq![cur]
    } else if rest[0] == 58 {
        seq![cur] + split_colon_acc(Seq::empty(), rest.drop_first())
    } else {
        split_colon_acc(cur.push(rest[0]), rest.drop_first())
    }
}

/// The fields of `s` separated by `:`, empty fields included (`"a::b"` has
/// three, `""` has one).
pub open spec fn split_colon(s: Seq<u8>) -> Seq<Seq<u8>> {
    split_colon_acc(Seq::empty(), s)
}

/// The fields `parts` joined with `:` between each two.
pub open spec fn join_colon(parts: Seq<Seq<u8>>) -> Seq<u8>
    decreases parts.len(),
{
    if parts.len() == 0 {
        Seq::empty()
    } else if parts.len() == 1 {
        parts[0]
    } else {
        parts[0] + seq![58u8] + join_colon(parts.drop_first())
    }
}

proof fn lemma_split_colon_acc(cur: Seq<u8>, rest: Seq<u8>)
    requires
        !cur.contains(58u8),
    ensures
        split_colon_acc(cur, rest).len() >= 1,
        join_colon(split_colon_acc(cur, rest)) == cur + rest,
        forall|k: int|
            0 <= k < split_colon_acc(cur, rest).len() ==> !(#[trigger] split_colon_acc(
                cur,
                rest,
            )[k]).contains(58u8),
    decreases rest.len(),
{
    let parts = split_colon_acc(cur, rest);
    if rest.len() == 0 {
        assert(cur + rest =~= cur);
    } else if rest[0] == 58 {
        let tail = split_colon_acc(Seq::empty(), rest.drop_first());
        lemma_split_colon_acc(Seq::empty(), rest.drop_first());
        assert(parts.drop_first() =~= tail);
        assert(parts[0] == cur);
        assert(Seq::<u8>::empty() + rest.drop_first() =~= rest.drop_first());
        assert(cur + seq![58u8] + rest.drop_first() =~= cur + rest);
        assert forall|k: int| 0 <= k < parts.len() implies !(#[trigger] parts[k]).contains(58u8) by {
            if k > 0 {
                assert(parts[k] == tail[k - 1]);
            }
        }
    } else {
        let c2 = cur.push(rest[0]);
        assert(!c2.contains(58u8)) by {
            if c2.contains(58u8) {
                let w = choose|w: int| 0 <= w < c2.len() && c2[w] == 58u8;
                if w < cur.len() {
                    assert(cur[w] == 58u8);
                }
            }
        }
        lemma_split_colon_acc(c2, rest.drop_first());
        assert(c2 + rest.drop_first() =~= cur + rest);
    }
}

/// Splitting at `:` loses nothing: joining the fields back with `:` gives
/// the string again, there is always at least one field, and no field holds
/// a `:`.
pub proof fn lemma_split_colon_join(s: Seq<u8>)
    ensures
        split_colon(s).len() >= 1,
        join_colon(split_colon(s)) == s,
        forall|k: int|
            0 <= k < split_colon(s).len() ==> !(#[trigger] split_colon(s)[k]).contains(58u8),
{
    lemma_split_colon_acc(Seq::empty(), s);
    assert(Seq::<u8>::empty() + s =~= s);
}

/// The library search path always ends with `/usr/lib`; in secure mode it
/// is `/usr/lib` alone, whatever `LD_LIBRARY_PATH` says.
pub proof fn lemma_library_path(env: Seq<Seq<u8>>, secure: bool)
    ensures
        spec_library_path(env, secure).len() >= 1,
        spec_library_path(env, secure).last() == "/usr/lib".spec_bytes(),
        secure ==> spec_library_path(env, secure) == seq!["/usr/lib".spec_bytes()],
        !secure && spec_getenv(env, "LD_LIBRARY_PATH".spec_bytes()) is Some ==> spec_library_path(
            env,
            secure,
        ).drop_last() == split_colon(spec_getenv(env, "LD_LIBRARY_PATH".spec_bytes())->0),
{
    match spec_getenv(env, "LD_LIBRARY_PATH".spec_bytes()) {
        Some(paths) => {
            if !secure {
                assert(split_colon(paths).push("/usr/lib".spec_bytes()).drop_last() =~= split_colon(
                    paths,
                ));
            }
        },
        None => {},
    }
}

/// Splits `s` at each `:`.
pub fn split_colon_exec(s: &[u8]) -> (r: Vec<Vec<u8>>)
    ensures
        strs_view(r@) == split_colon(s@),
{
    let mut parts: Vec<Vec<u8>> = Vec::new();
    let mut cur: Vec<u8> = Vec::new();
    let mut i: usize = 0;
    assert(s@.subrange(0, s@.len() as int) =~= s@);
    while i < s.len()
        invariant
            i <= s@.len(),
            strs_view(parts@) + split_colon_acc(cur@, s@.subrange(i as int, s@.len() as int))
                == split_colon(s@),
        decreases s@.len() - i,
    {
        let ghost rest = s@.subrange(i as int, s@.len() as int);
        assert(rest.drop_first() =~= s@.subrange(i + 1, s@.len() as int));
        assert(rest[0] == s@[i as int]);
        if s[i] == 58 {
            let ghost old_parts = parts@;
            let ghost old_cur = cur@;
            parts.push(cur);
            cur = Vec::new();
            assert(strs_view(parts@) =~= strs_view(old_parts) + seq![old_cur]);
            assert(cur@ =~= Seq::<u8>::empty());
        } else {
            cur.push(s[i]);
        }
        i = i + 1;
    }
    let ghost old_parts = parts@;
    let ghost old_cur = cur@;
    assert(s@.subrange(i as int, s@.len() as int) =~= Seq::<u8>::empty());
    parts.push(cur);
    assert(strs_view(parts@) =~= strs_view(old_parts) + seq![old_cur]);
    parts
}

/// The internal config the dynamic linker generates from the environment
/// variables it receives.
#[derive(Debug, PartialEq, Eq)]
pub struct Config {
    pub bind_now: bool,
    pub debug: bool,
    pub secure: bool,
    pub verbose: bool,
    pub trace_loaded_objects: bool,
    pub library_path: Vec<Vec<u8>>,
    pub preload: Vec<Vec<u8>>,
}

/// The variable `name` is set to a non-empty value in `env`.
pub open spec fn env_flag(env: Seq<Seq<u8>>, name: Seq<u8>) -> bool {
    match spec_getenv(env, name) {
        Some(v) => v.len() != 0,
        None => false,
    }
}

/// `LD_DEBUG` asks for debug output: it is unset, or set to anything but
/// `0` and `none`.
pub open spec fn debug_flag(env: Seq<Seq<u8>>) -> bool {
    match spec_getenv(env, "LD_DEBUG".spec_bytes()) {
        Some(v) => v != "0".spec_bytes() && v != "none".spec_bytes(),
        None => true,
    }
}

/// The directories searched for libraries: those of `LD_LIBRARY_PATH`
/// (ignored in secure mode), then `/usr/lib`.
pub open spec fn spec_library_path(env: Seq<Seq<u8>>, secure: bool) -> Seq<Seq<u8>> {
    match spec_getenv(env, "LD_LIBRARY_PATH".spec_bytes()) {
        Some(paths) => if secure {
            seq!["/usr/lib".spec_bytes()]
        } else {
            split_colon(paths).push("/usr/lib".spec_bytes())
        },
        None => seq!["/usr/lib".spec_bytes()],
    }
}

/// A copy of the bytes of `s`.
fn str_bytes(s: &str) -> (r: Vec<u8>)
    ensures
        r@ == s.spec_bytes(),
{
    let b = s.as_bytes();
    copy_range(b, 0, b.len())
}

impl Config {
    /// The configuration that the environment and the auxiliary vector of
    /// `block` select.
    pub fn new(block: &KernelBlock) -> (r: Config)
        requires
            spec_getauxval(block.auxv@, AT_SECURE) is Ok,
        ensures
            r.bind_now == env_flag(block.env_view(), "LD_BIND_NOW".spec_bytes()),
            r.debug == debug_flag(block.env_view()),
            r.secure == (spec_getauxval(block.auxv@, AT_SECURE)->Ok_0 != 0),
            r.verbose == env_flag(block.env_view(), "LD_VERBOSE".spec_bytes()),
            r.trace_loaded_objects == env_flag(
                block.env_view(),
                "LD_TRACE_LOADED_OBJECTS".spec_bytes(),
            ),
            strs_view(r.library_path@) == spec_library_path(block.env_view(), r.secure),
            r.preload@.len() == 0,
    {
        let bind_now = match block.getenv("LD_BIND_NOW".as_bytes()) {
            Some(var) => var.len() != 0,
            None => false,
        };
        let debug = match block.getenv("LD_DEBUG".as_bytes()) {
            Some(var) => !bytes_eq(var.as_slice(), "0".as_bytes()) && !bytes_eq(
                var.as_slice(),
                "none".as_bytes(),
            ),
            None => true,
        };
        let secure = match block.getauxval(AT_SECURE) {
            Ok(v) => v != 0,
            Err(_) => false,
        };
        let verbose = match block.getenv("LD_VERBOSE".as_bytes()) {
            Some(var) => var.len() != 0,
            None => false,
        };
        let trace_loaded_objects = match block.getenv("LD_TRACE_LOADED_OBJECTS".as_bytes()) {
            Some(var) => var.len() != 0,
            None => false,
        };
        let library_path = match block.getenv("LD_LIBRARY_PATH".as_bytes()) {
            Some(paths) => {
                let mut dirs: Vec<Vec<u8>> = Vec::new();
                if !secure {
                    dirs = split_colon_exec(paths.as_slice());
                }
                let ghost before = dirs@;
                dirs.push(str_bytes("/usr/lib"));
                assert(strs_view(dirs@) =~= strs_view(before).push("/usr/lib".spec_bytes()));
                if secure {
                    assert(strs_view(dirs@) =~= seq!["/usr/lib".spec_bytes()]);
                }
                dirs
            },
            None => {
                let mut dirs: Vec<Vec<u8>> = Vec::new();
                dirs.push(str_bytes("/usr/lib"));
                assert(strs_view(dirs@) =~= seq!["/usr/lib".spec_bytes()]);
                dirs
            },
        };
        Config {
            bind_now,
            debug,
            secure,
            verbose,
            trace_loaded_objects,
            library_path,
            preload: Vec::new(),
        }
    }
}


/// `true` or `false`, as text.
pub open spec fn bool_text(b: bool) -> Seq<u8> {
    if b {
        "true".spec_bytes()
    } else {
        "false".spec_bytes()
    }
}

/// The byte `c` as a string's debug output writes it: a backslash before `"`
/// and `\`, `\t`, `\r`, `\n` and `\0` for those controls, `\u{..}` with
/// the code in hexadecimal for the other ASCII controls, and any other byte
/// as it is (bytes of non-ASCII characters included: the library keeps
/// names as bytes, not as characters).
pub open spec fn escape_byte(c: u8) -> Seq<u8> {
    if c == 34 {
        seq![92u8, 34u8]
    } else if c == 92 {
        seq![92u8, 92u8]
    } else if c == 9 {
        seq![92u8, 116u8]
    } else if c == 13 {
        seq![92u8, 114u8]
    } else if c == 10 {
        seq![92u8, 110u8]
    } else if c == 0 {
        seq![92u8, 48u8]
    } else if c < 32 || c == 127 {
        "\\u{".spec_bytes() + spec_hex(c as nat) + "}".spec_bytes()
    } else {
        seq![c]
    }
}

/// The bytes of `s`, each escaped as a string's debug output writes it.
pub open spec fn escaped(s: Seq<u8>) -> Seq<u8>
    decreases s.len(),
{
    if s.len() == 0 {
        Seq::empty()
    } else {
        escaped(s.drop_last()) + escape_byte(s.last())
    }
}

/// A list of strings in Rust's pretty debug layout: `[]` when empty, else
/// one quoted, escaped string per line, indented by four spaces, each
/// followed by a comma, between `[` and `]` lines.
pub open spec fn list_text(items: Seq<Seq<u8>>) -> Seq<u8> {
    if items.len() == 0 {
        "[]".spec_bytes()
    } else {
        "[\n".spec_bytes() + list_lines(items) + "]".spec_bytes()
    }
}

/// The lines of the items of a pretty-printed list.
pub open spec fn list_lines(items: Seq<Seq<u8>>) -> Seq<u8>
    decreases items.len(),
{
    if items.len() == 0 {
        Seq::empty()
    } else {
        list_lines(items.drop_last()) + "    \"".spec_bytes() + escaped(items.last())
            + "\",\n".spec_bytes()
    }
}

/// What the debug output of a configuration prints.
pub open spec fn config_text(c: Config) -> Seq<u8> {
    "bind_now: ".spec_bytes() + bool_text(c.bind_now) + " debug: ".spec_bytes() + bool_text(
        c.debug,
    ) + " secure: ".spec_bytes() + bool_text(c.secure) + " verbose: ".spec_bytes() + bool_text(
        c.verbose,
    ) + " trace_loaded_objects: ".spec_bytes() + bool_text(c.trace_loaded_objects)
        + " library_path: ".spec_bytes() + list_text(strs_view(c.library_path@))
        + " preload: ".spec_bytes() + list_text(strs_view(c.preload@))
}

fn push_bool(out: &mut Vec<u8>, b: bool)
    ensures
        final(out)@ == old(out)@ + bool_text(b),
{
    if b {
        push_bytes(out, "true".as_bytes());
    } else {
        push_bytes(out, "false".as_bytes());
    }
}

fn push_escaped(out: &mut Vec<u8>, s: &[u8])
    ensures
        final(out)@ == old(out)@ + escaped(s@),
{
    let mut i: usize = 0;
    while i < s.len()
        invariant
            i <= s@.len(),
            out@ == old(out)@ + escaped(s@.subrange(0, i as int)),
        decreases s@.len() - i,
    {
        let c = s[i];
        let ghost before = out@;
        if c == 34 {
            out.push(92);
            out.push(34);
        } else if c == 92 {
            out.push(92);
            out.push(92);
        } else if c == 9 {
            out.push(92);
            out.push(116);
        } else if c == 13 {
            out.push(92);
            out.push(114);
        } else if c == 10 {
            out.push(92);
            out.push(110);
        } else if c == 0 {
            out.push(92);
            out.push(48);
        } else if c < 32 || c == 127 {
            push_bytes(out, "\\u{".as_bytes());
            let h = to_hex(c as u64);
            push_bytes(out, h.as_slice());
            push_bytes(out, "}".as_bytes());
        } else {
            out.push(c);
        }
        proof {
            assert(out@ =~= before + escape_byte(c));
            assert(s@.subrange(0, i + 1).drop_last() =~= s@.subrange(0, i as int));
        }
        i = i + 1;
    }
    assert(s@.subrange(0, s@.len() as int) =~= s@);
}

fn push_list(out: &mut Vec<u8>, items: &Vec<Vec<u8>>)
    ensures
        final(out)@ == old(out)@ + list_text(strs_view(items@)),
{
    if items.len() == 0 {
        push_bytes(out, "[]".as_bytes());
        return;
    }
    push_bytes(out, "[\n".as_bytes());
    let ghost start = out@;
    let mut i: usize = 0;
    while i < items.len()
        invariant
            i <= items@.len(),
            out@ == start + list_lines(strs_view(items@.subrange(0, i as int))),
        decreases items@.len() - i,
    {
        push_bytes(out, "    \"".as_bytes());
        push_escaped(out, items[i].as_slice());
        push_bytes(out, "\",\n".as_bytes());
        proof {
            let prev = strs_view(items@.subrange(0, i as int));
            let next = strs_view(items@.subrange(0, i + 1));
            assert(next.drop_last() =~= prev);
            assert(next.last() == items@[i as int]@);
        }
        i = i + 1;
    }
    assert(items@.subrange(0, items@.len() as int) =~= items@);
    push_bytes(out, "]".as_bytes());
}

impl Config {
    /// The text the debug output of the configuration prints.
    pub fn debug_text(&self) -> (r: Vec<u8>)
        ensures
            r@ == config_text(*self),
    {
        let mut out: Vec<u8> = Vec::new();
        push_bytes(&mut out, "bind_now: ".as_bytes());
        push_bool(&mut out, self.bind_now);
        push_bytes(&mut out, " debug: ".as_bytes());
        push_bool(&mut out, self.debug);
        push_bytes(&mut out, " secure: ".as_bytes());
        push_bool(&mut out, self.secure);
        push_bytes(&mut out, " verbose: ".as_bytes());
        push_bool(&mut out, self.verbose);
        push_bytes(&mut out, " trace_loaded_objects: ".as_bytes());
        push_bool(&mut out, self.trace_loaded_objects);
        push_bytes(&mut out, " library_path: ".as_bytes());
        push_list(&mut out, &self.library_path);
        push_bytes(&mut out, " preload: ".as_bytes());
        push_list(&mut out, &self.preload);
        assert(out@ =~= config_text(*self));
        out
    }
}
} // verus!
