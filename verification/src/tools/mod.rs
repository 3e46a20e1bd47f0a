//! The tools an agent calls, their registry, and what they share.
pub mod bash;
pub mod edit;
pub mod glob_tool;
pub mod grep;
pub mod list;
pub mod read;

use vstd::prelude::*;
use vstd::utf8::*;

verus! {

/// Byte cap on each captured output stream.
pub const MAX_OUTPUT_BYTES: usize = 30720;

/// Character cap on a single line shown by `read`.
pub const MAX_LINE_LENGTH: usize = 2000;

/// The largest character boundary of `bytes` that is at most `max`.
pub open spec fn floor_boundary(bytes: Seq<u8>, max: int) -> int
    decreases max,
{
    if max <= 0 {
        0
    } else if is_char_boundary(bytes, max) {
        max
    } else {
        floor_boundary(bytes, max - 1)
    }
}

proof fn lemma_floor_boundary_le(bytes: Seq<u8>, max: int)
    ensures
        floor_boundary(bytes, max) <= max || max <= 0,
        floor_boundary(bytes, max) >= 0,
    decreases max,
{
    if max > 0 && !is_char_boundary(bytes, max) {
        lemma_floor_boundary_le(bytes, max - 1);
    }
}

proof fn lemma_floor_boundary_is_boundary(bytes: Seq<u8>, max: int)
    requires
        valid_utf8(bytes),
        max <= bytes.len(),
    ensures
        is_char_boundary(bytes, floor_boundary(bytes, max)),
    decreases max,
{
    if max <= 0 {
        reveal_with_fuel(is_char_boundary, 1);
    } else if !is_char_boundary(bytes, max) {
        lemma_floor_boundary_is_boundary(bytes, max - 1);
    }
}

proof fn lemma_floor_boundary_greatest(bytes: Seq<u8>, max: int, c: int)
    requires
        0 <= c <= max,
        is_char_boundary(bytes, c),
    ensures
        c <= floor_boundary(bytes, max),
    decreases max,
{
    if max > 0 && !is_char_boundary(bytes, max) {
        lemma_floor_boundary_greatest(bytes, max - 1, c);
    }
}

/// The encoding of a text is that of any prefix followed by that of the
/// rest, and the prefix ends on a character boundary.
proof fn lemma_encode_prefix(s: Seq<char>, k: int)
    requires
        0 <= k <= s.len(),
    ensures
        encode_utf8(s) == encode_utf8(s.take(k)) + encode_utf8(s.skip(k)),
        is_char_boundary(encode_utf8(s), encode_utf8(s.take(k)).len() as int),
    decreases s.len(),
{
    encode_utf8_valid_utf8(s);
    if k == 0 {
        assert(s.take(0) =~= Seq::<char>::empty());
        assert(s.skip(0) =~= s);
        assert(encode_utf8(Seq::<char>::empty()) =~= Seq::<u8>::empty());
        assert(encode_utf8(s) =~= encode_utf8(s.take(k)) + encode_utf8(s.skip(k)));
    } else {
        let rest = s.drop_first();
        lemma_encode_prefix(rest, k - 1);
        assert(s.take(k).drop_first() =~= rest.take(k - 1));
        assert(s.skip(k) =~= rest.skip(k - 1));
        assert(s.take(k)[0] == s[0]);
        let head = encode_scalar(s[0] as u32);
        assert(encode_utf8(s.take(k)) == head + encode_utf8(rest.take(k - 1)));
        assert(encode_utf8(s) == head + encode_utf8(rest));
        assert(encode_utf8(s) =~= encode_utf8(s.take(k)) + encode_utf8(s.skip(k)));
        let bytes = encode_utf8(s);
        encode_utf8_first_scalar(s);
        assert(pop_first_scalar(bytes) =~= encode_utf8(rest));
        assert(head.len() > 0);
        assert(is_char_boundary(bytes, encode_utf8(s.take(k)).len() as int));
    }
}

/// Cutting keeps the longest prefix of the text whose UTF-8 encoding fits in
/// `max` bytes: all of it when it fits, and never a part of a character.
pub proof fn lemma_truncated_text(s: Seq<char>, max: int)
    requires
        max >= 0,
    ensures
        encode_utf8(truncated_text(s, max)).len() <= max,
        truncated_text(s, max).len() <= s.len(),
        truncated_text(s, max) == s.take(truncated_text(s, max).len() as int),
        encode_utf8(s).len() <= max ==> truncated_text(s, max) == s,
        truncated_text(s, max).len() < s.len()
            ==> encode_utf8(s.take(truncated_text(s, max).len() as int + 1)).len() > max,
{
    let t = truncated_text(s, max);
    if encode_utf8(s).len() <= max {
        assert(s.take(s.len() as int) =~= s);
    } else {
        let bytes = encode_utf8(s);
        encode_utf8_valid_utf8(s);
        encode_utf8_decode_utf8(s);
        let b = floor_boundary(bytes, max);
        lemma_floor_boundary_le(bytes, max);
        lemma_floor_boundary_is_boundary(bytes, max);
        valid_utf8_split(bytes, b);
        decode_utf8_split(bytes, b);
        decode_utf8_encode_utf8(bytes.subrange(0, b));
        let rest = decode_utf8(bytes.subrange(b, bytes.len() as int));
        assert(s == t + rest);
        assert(t =~= s.take(t.len() as int));
        assert(encode_utf8(t) == bytes.subrange(0, b));
        if t.len() < s.len() {
            let m = t.len() as int;
            let u = s.take(m + 1);
            lemma_encode_prefix(s, m + 1);
            lemma_encode_prefix(u, m);
            assert(u.take(m) =~= t);
            let one = u.skip(m);
            assert(one.len() == 1);
            assert(one.drop_first() =~= Seq::<char>::empty());
            assert(encode_utf8(one) == encode_scalar(one[0] as u32) + encode_utf8(one.drop_first()));
            assert(encode_utf8(one).len() > 0);
            let c = encode_utf8(u).len() as int;
            assert(c > b);
            if c <= max {
                lemma_floor_boundary_greatest(bytes, max, c);
            }
        }
    }
}

/// The text `s` cut to at most `max` bytes of UTF-8 at a character boundary.
pub open spec fn truncated_text(s: Seq<char>, max: int) -> Seq<char> {
    if encode_utf8(s).len() <= max {
        s
    } else {
        decode_utf8(encode_utf8(s).subrange(0, floor_boundary(encode_utf8(s), max)))
    }
}

/// Cuts `s` to at most `max_bytes` bytes of UTF-8 without splitting a
/// character. Returns the kept text and whether anything was cut.
pub fn truncate_output(s: &str, max_bytes: usize) -> (res: (String, bool))
    requires
        encode_utf8(s@).len() <= usize::MAX,
    ensures
        res.1 == (encode_utf8(s@).len() > max_bytes),
        res.0@ == truncated_text(s@, max_bytes as int),
        encode_utf8(res.0@).len() <= max_bytes,
        res.0@.len() <= s@.len(),
        res.0@ == s@.subrange(0, res.0@.len() as int),
        !res.1 ==> res.0@ == s@,
        res.1 ==> encode_utf8(res.0@) == encode_utf8(s@).subrange(
            0,
            floor_boundary(encode_utf8(s@), max_bytes as int),
        ),
{
    proof {
        encode_utf8_valid_utf8(s@);
    }
    if s.len() <= max_bytes {
        assert(s@.subrange(0, s@.len() as int) == s@);
        return (s.to_owned(), false);
    }
    let mut end = max_bytes;
    while end > 0 && !s.is_char_boundary(end)
        invariant
            end <= max_bytes,
            floor_boundary(encode_utf8(s@), end as int) == floor_boundary(encode_utf8(s@), max_bytes as int),
        decreases end,
    {
        end = end - 1;
    }
    let (head, _) = s.split_at(end);
    proof {
        lemma_floor_boundary_le(encode_utf8(s@), max_bytes as int);
        encode_utf8_decode_utf8(head@);
        encode_utf8_decode_utf8(s@);
        is_char_boundary_start_end_of_seq(encode_utf8(s@));
        decode_utf8_split(encode_utf8(s@), end as int);
        let rest = decode_utf8(encode_utf8(s@).subrange(end as int, encode_utf8(s@).len() as int));
        assert(s@ == head@ + rest);
        assert(s@.subrange(0, head@.len() as int) =~= head@);
    }
    (head.to_owned(), true)
}


/// The tools, by kind.
#[derive(Clone, Copy, PartialEq, Eq, Structural, Debug)]
pub enum ToolKind {
    Read,
    Edit,
    Glob,
    Grep,
    List,
    Bash,
}

/// The name a tool is called by.
pub open spec fn tool_name(k: ToolKind) -> Seq<char> {
    match k {
        ToolKind::Read => "read"@,
        ToolKind::Edit => "edit"@,
        ToolKind::Glob => "glob"@,
        ToolKind::Grep => "grep"@,
        ToolKind::List => "list"@,
        ToolKind::Bash => "bash"@,
    }
}

/// The tools in the order they are listed.
pub open spec fn registry_spec() -> Seq<ToolKind> {
    seq![ToolKind::Read, ToolKind::Edit, ToolKind::Glob, ToolKind::Grep, ToolKind::List, ToolKind::Bash]
}

impl ToolKind {
    /// The name the tool is called by.
    pub fn name(&self) -> (n: &'static str)
        ensures
            n@ == tool_name(*self),
    {
        match self {
            ToolKind::Read => "read",
            ToolKind::Edit => "edit",
            ToolKind::Glob => "glob",
            ToolKind::Grep => "grep",
            ToolKind::List => "list",
            ToolKind::Bash => "bash",
        }
    }
}

/// The tools in the order they are listed.
pub fn registry() -> (r: Vec<ToolKind>)
    ensures
        r@ == registry_spec(),
{
    let r = vec![ToolKind::Read, ToolKind::Edit, ToolKind::Glob, ToolKind::Grep, ToolKind::List, ToolKind::Bash];
    assert(r@ =~= registry_spec());
    r
}

/// No two tools share a name.
pub proof fn lemma_tool_names_distinct()
    ensures
        forall|a: ToolKind, b: ToolKind| tool_name(a) == tool_name(b) ==> a == b,
{
    reveal_strlit("read");
    reveal_strlit("edit");
    reveal_strlit("glob");
    reveal_strlit("grep");
    reveal_strlit("list");
    reveal_strlit("bash");
    assert forall|a: ToolKind, b: ToolKind| tool_name(a) == tool_name(b) implies a == b by {
        if a != b {
            let x = tool_name(a);
            let y = tool_name(b);
            assert(x[0] != y[0] || x[1] != y[1] || x[2] != y[2] || x[3] != y[3]);
        }
    }
}

/// The registered tool called `name`, if any.
pub fn find_tool(name: &str) -> (r: Option<ToolKind>)
    ensures
        r matches Some(k) ==> tool_name(k) == name@,
        r is None ==> forall|k: ToolKind| tool_name(k) != name@,
{
    let tools = registry();
    let mut i: usize = 0;
    while i < tools.len()
        invariant
            i <= tools@.len(),
            tools@ == registry_spec(),
            forall|j: int| 0 <= j < i ==> tool_name(#[trigger] tools@[j]) != name@,
        decreases tools@.len() - i,
    {
        if crate::text::str_eq(tools[i].name(), name) {
            return Some(tools[i]);
        }
        i = i + 1;
    }
    proof {
        assert forall|k: ToolKind| tool_name(k) != name@ by {
            match k {
                ToolKind::Read => assert(tools@[0] == k),
                ToolKind::Edit => assert(tools@[1] == k),
                ToolKind::Glob => assert(tools@[2] == k),
                ToolKind::Grep => assert(tools@[3] == k),
                ToolKind::List => assert(tools@[4] == k),
                ToolKind::Bash => assert(tools@[5] == k),
            }
        }
    }
    None
}

/// Who is calling a tool: the session the call belongs to.
pub struct ToolCtx {
    pub session: String,
}

} // verus!
