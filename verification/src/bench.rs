//! The pure parts of the benchmark that compares `jgrep` with the Java
//! `jgrep` and `ygrep` tools: the commands it runs, the fixtures it
//! generates, and HTML escaping for its report.

use vstd::prelude::*;
use crate::explore::{decimal, decimal_spec};
use crate::preview::strings_view;
use crate::text::to_chars;

verus! {

/// A program and its arguments.
#[derive(Debug)]
pub struct CommandSpec {
    pub program: String,
    pub args: Vec<String>,
}

fn clone_all(v: &Vec<String>) -> (r: Vec<String>)
    ensures
        strings_view(r@) == strings_view(v@),
{
    let mut out: Vec<String> = Vec::new();
    let n = v.len();
    for i in 0..n
        invariant
            n == v@.len(),
            strings_view(out@) == strings_view(v@).take(i as int),
    {
        let ghost before = out@;
        out.push(v[i].clone());
        proof {
            assert(strings_view(out@) =~= strings_view(before).push(v@[i as int]@));
            assert(strings_view(v@).take(i + 1) =~= strings_view(v@).take(i as int).push(v@[i as int]@));
        }
    }
    proof {
        assert(strings_view(v@).take(n as int) =~= strings_view(v@));
    }
    out
}

/// `program` run with `args`.
pub fn command_spec(program: &str, args: &Vec<String>) -> (r: CommandSpec)
    ensures
        r.program@ == program@,
        strings_view(r.args@) == strings_view(args@),
{
    CommandSpec { program: program.to_owned(), args: clone_all(args) }
}

/// `java -jar JAR` run with `args`.
pub fn java_spec(jar: &str, args: &Vec<String>) -> (r: CommandSpec)
    ensures
        r.program@ == "java"@,
        strings_view(r.args@) == seq!["-jar"@, jar@] + strings_view(args@),
{
    let mut all: Vec<String> = Vec::new();
    all.push("-jar".to_owned());
    all.push(jar.to_owned());
    let ghost head = all@;
    let rest = clone_all(args);
    let ghost rv = rest@;
    let mut rest = rest;
    all.append(&mut rest);
    proof {
        assert(all@ == head + rv);
        assert(strings_view(all@) =~= seq!["-jar"@, jar@] + strings_view(rv));
    }
    CommandSpec { program: "java".to_owned(), args: all }
}

/// A file the benchmark needs, or the message when it is missing.
pub fn require_file(exists: bool, path: &str, label: &str) -> (r: Result<(), String>)
    ensures
        exists <==> r is Ok,
        r matches Err(m) ==> m@ == label@ + " not found at "@ + path@,
{
    if exists {
        Ok(())
    } else {
        let mut m = label.to_owned();
        m.append(" not found at ");
        m.append(path);
        Err(m)
    }
}

/// A character as it appears in HTML text.
pub open spec fn escape_char(c: char) -> Seq<char> {
    if c == '&' {
        "&amp;"@
    } else if c == '<' {
        "&lt;"@
    } else if c == '>' {
        "&gt;"@
    } else if c == '"' {
        "&quot;"@
    } else {
        seq![c]
    }
}

/// Text with `&`, `<`, `>` and `"` escaped for HTML.
pub open spec fn escape_spec(s: Seq<char>) -> Seq<char>
    decreases s.len(),
{
    if s.len() == 0 {
        Seq::empty()
    } else {
        escape_spec(s.drop_last()) + escape_char(s.last())
    }
}

/// Text escaped for HTML (see `escape_spec`).
pub fn escape(input: &str) -> (r: String)
    ensures
        r@ == escape_spec(input@),
{
    let v = to_chars(input);
    let mut out = String::new();
    let n = v.len();
    for i in 0..n
        invariant
            n == v@.len(),
            v@ == input@,
            out@ == escape_spec(v@.take(i as int)),
    {
        proof {
            assert(v@.take(i + 1).drop_last() =~= v@.take(i as int));
            assert(v@.take(i + 1).last() == v@[i as int]);
        }
        let c = v[i];
        if c == '&' {
            out.append("&amp;");
        } else if c == '<' {
            out.append("&lt;");
        } else if c == '>' {
            out.append("&gt;");
        } else if c == '"' {
            out.append("&quot;");
        } else {
            crate::text::push_char(&mut out, c);
            proof {
                assert(seq![c] =~= Seq::<char>::empty().push(c));
            }
        }
    }
    proof {
        assert(v@.take(n as int) =~= v@);
    }
    out
}

pub open spec fn bool_text(b: bool) -> Seq<char> {
    if b {
        "true"@
    } else {
        "false"@
    }
}

/// One event of the NDJSON fixture.
pub open spec fn ndjson_line(i: nat) -> Seq<char> {
    "{\"id\":"@ + decimal_spec(i) + ",\"active\":"@ + bool_text(i % 2 == 0) + ",\"value\":\"item-"@ + decimal_spec(i)
        + "\"}\n"@
}

/// One document of the YAML fixture.
pub open spec fn yaml_doc(i: nat) -> Seq<char> {
    "---\nid: "@ + decimal_spec(i) + "\nactive: "@ + bool_text(i % 2 == 0) + "\nvalue: item-"@ + decimal_spec(i) + "\n"@
}

/// The first `n` NDJSON events.
pub open spec fn ndjson_fixture_spec(n: nat) -> Seq<char>
    decreases n,
{
    if n == 0 {
        Seq::empty()
    } else {
        ndjson_fixture_spec((n - 1) as nat) + ndjson_line((n - 1) as nat)
    }
}

/// The first `n` YAML documents.
pub open spec fn yaml_fixture_spec(n: nat) -> Seq<char>
    decreases n,
{
    if n == 0 {
        Seq::empty()
    } else {
        yaml_fixture_spec((n - 1) as nat) + yaml_doc((n - 1) as nat)
    }
}

/// The NDJSON fixture with `n` events.
pub fn ndjson_fixture(n: usize) -> (r: String)
    ensures
        r@ == ndjson_fixture_spec(n as nat),
{
    let mut out = String::new();
    for i in 0..n
        invariant
            out@ == ndjson_fixture_spec(i as nat),
    {
        out.append("{\"id\":");
        let d = decimal(i);
        out.append(d.as_str());
        out.append(",\"active\":");
        if i % 2 == 0 {
            out.append("true");
        } else {
            out.append("false");
        }
        out.append(",\"value\":\"item-");
        out.append(d.as_str());
        out.append("\"}\n");
    }
    out
}

/// The YAML fixture with `n` documents.
pub fn yaml_fixture(n: usize) -> (r: String)
    ensures
        r@ == yaml_fixture_spec(n as nat),
{
    let mut out = String::new();
    for i in 0..n
        invariant
            out@ == yaml_fixture_spec(i as nat),
    {
        out.append("---\nid: ");
        let d = decimal(i);
        out.append(d.as_str());
        out.append("\nactive: ");
        if i % 2 == 0 {
            out.append("true");
        } else {
            out.append("false");
        }
        out.append("\nvalue: item-");
        out.append(d.as_str());
        out.append("\n");
    }
    out
}

} // verus!
