//! The values a unit file is filled with, derived from the command line.
use vstd::prelude::*;
use vstd::string::StringExecFns;

use crate::template::{lemma_single_pair, lemma_token_opens_once, pairs_view, substitute, substituted, token_text};
use crate::text::{chars_of, lemma_absent_needle, lemma_leading_occurrence, occurs};

verus! {

/// The decimal digit `d` as a character.
pub open spec fn digit_char(d: nat) -> char {
    ((d + 48) as u8) as char
}

/// `n` written in decimal, without leading zeros.
pub open spec fn decimal(n: nat) -> Seq<char>
    decreases n,
{
    if n < 10 {
        seq![digit_char(n)]
    } else {
        decimal(n / 10).push(digit_char(n % 10))
    }
}

fn push_decimal(out: &mut String, n: u64)
    ensures
        final(out)@ == old(out)@ + decimal(n as nat),
    decreases n,
{
    if n >= 10 {
        push_decimal(out, n / 10);
    }
    let d: u8 = (n % 10) as u8;
    out.push((d + 48) as char);
    proof {
        assert(out@ =~= old(out)@ + decimal(n as nat));
    }
}

/// `n` written in decimal.
pub fn decimal_string(n: u64) -> (r: String)
    ensures
        r@ == decimal(n as nat),
{
    let mut r = String::new();
    push_decimal(&mut r, n);
    proof {
        assert(r@ =~= decimal(n as nat));
    }
    r
}

/// `parts` with `sep` between each two neighbours.
pub open spec fn joined(parts: Seq<Seq<char>>, sep: Seq<char>) -> Seq<char>
    decreases parts.len(),
{
    if parts.len() == 0 {
        seq![]
    } else if parts.len() == 1 {
        parts[0]
    } else {
        joined(parts.drop_last(), sep) + sep + parts.last()
    }
}

/// The characters of each string.
pub open spec fn texts(v: Seq<String>) -> Seq<Seq<char>> {
    v.map_values(|s: String| s@)
}

/// An argument wrapped in double quotes when it holds a space, as it is
/// otherwise; nothing inside it is escaped.
pub open spec fn quoted(a: Seq<char>) -> Seq<char> {
    if a.contains(' ') {
        seq!['"'] + a + seq!['"']
    } else {
        a
    }
}

/// The characters after the last `/` of a path: its final segment.
pub open spec fn last_segment(p: Seq<char>) -> Seq<char>
    decreases p.len(),
{
    if p.len() == 0 || p.last() == '/' {
        seq![]
    } else {
        last_segment(p.drop_last()).push(p.last())
    }
}

/// The strings joined with single spaces.
pub fn join_spaced(parts: &Vec<String>) -> (r: String)
    ensures
        r@ == joined(texts(parts@), seq![' ']),
{
    let mut r = String::new();
    let mut i: usize = 0;
    while i < parts.len()
        invariant
            i <= parts.len(),
            r@ == joined(texts(parts@).take(i as int), seq![' ']),
        decreases parts.len() - i,
    {
        let ghost prev = r@;
        if i > 0 {
            r.push(' ');
        }
        r.append(parts[i].as_str());
        proof {
            let t = texts(parts@);
            assert(t.take(i + 1).drop_last() =~= t.take(i as int));
            if i == 0 {
                assert(r@ =~= t.take(1)[0]);
            } else {
                assert(r@ =~= prev + seq![' '] + t[i as int]);
            }
        }
        i = i + 1;
    }
    proof {
        assert(texts(parts@).take(i as int) =~= texts(parts@));
    }
    r
}

/// Whether `s` holds a space.
pub fn has_space(s: &str) -> (r: bool)
    ensures
        r == s@.contains(' '),
{
    let cs = chars_of(s);
    let mut i: usize = 0;
    while i < cs.len()
        invariant
            cs@ == s@,
            forall|k: int| 0 <= k < i ==> cs@[k] != ' ',
        decreases cs.len() - i,
    {
        if cs[i] == ' ' {
            return true;
        }
        i = i + 1;
    }
    false
}

/// One argument, quoted when it holds a space.
pub fn quote_arg(arg: &str) -> (r: String)
    ensures
        r@ == quoted(arg@),
{
    if has_space(arg) {
        let mut r = String::new();
        r.push('"');
        r.append(arg);
        r.push('"');
        proof {
            assert(r@ =~= quoted(arg@));
        }
        r
    } else {
        String::from_str(arg)
    }
}

/// The arguments, each quoted when it holds a space, joined with single
/// spaces.
pub fn escape_args(args: &Vec<String>) -> (r: String)
    ensures
        r@ == joined(texts(args@).map_values(|a: Seq<char>| quoted(a)), seq![' ']),
{
    let mut q: Vec<String> = Vec::new();
    let mut i: usize = 0;
    while i < args.len()
        invariant
            i <= args.len(),
            q.len() == i,
            forall|k: int| 0 <= k < i ==> #[trigger] q@[k]@ == quoted(args@[k]@),
        decreases args.len() - i,
    {
        q.push(quote_arg(args[i].as_str()));
        i = i + 1;
    }
    proof {
        assert(texts(q@) =~= texts(args@).map_values(|a: Seq<char>| quoted(a)));
    }
    join_spaced(&q)
}

/// The final segment of a path, or `None` where it ends in `/` or is empty.
pub fn basename(path: &str) -> (r: Option<String>)
    ensures
        last_segment(path@).len() == 0 ==> r is None,
        last_segment(path@).len() > 0 ==> r is Some && r->0@ == last_segment(path@),
{
    let cs = chars_of(path);
    let mut start: usize = cs.len();
    assert(cs@.take(start as int) =~= cs@);
    while start > 0 && cs[start - 1] != '/'
        invariant
            start <= cs.len(),
            cs@ == path@,
            last_segment(cs@) == last_segment(cs@.take(start as int)) + cs@.subrange(
                start as int,
                cs.len() as int,
            ),
        decreases start,
    {
        proof {
            let p = cs@.take(start as int);
            assert(p.drop_last() =~= cs@.take(start - 1));
            assert(cs@.subrange(start - 1, cs.len() as int) =~= seq![p.last()] + cs@.subrange(
                start as int,
                cs.len() as int,
            ));
            assert(last_segment(p) == last_segment(p.drop_last()).push(p.last()));
            assert(last_segment(p) + cs@.subrange(start as int, cs.len() as int) =~= last_segment(
                p.drop_last(),
            ) + cs@.subrange(start - 1, cs.len() as int));
        }
        start = start - 1;
    }
    proof {
        assert(last_segment(cs@.take(start as int)) =~= Seq::<char>::empty());
    }
    if start == cs.len() {
        return None;
    }
    let mut r = String::new();
    let mut i: usize = start;
    while i < cs.len()
        invariant
            start <= i <= cs.len(),
            r@ == cs@.subrange(start as int, i as int),
        decreases cs.len() - i,
    {
        r.push(cs[i]);
        proof {
            assert(r@ =~= cs@.subrange(start as int, i + 1));
        }
        i = i + 1;
    }
    Some(r)
}

/// What the command line gives: the service's name, the resolved or raw
/// paths as text, the optional fields, the restart policy and the target's
/// arguments.
pub struct Cli {
    pub name: String,
    pub target: String,
    pub template_file: String,
    pub username: Option<String>,
    pub usergroup: Option<String>,
    pub description: Option<String>,
    pub syslog_id: Option<String>,
    pub workdir: String,
    pub restart: String,
    pub restart_after: u64,
    pub args: Vec<String>,
}

/// Why a unit could not be derived.
#[derive(Debug, Clone, Copy, PartialEq, Eq, Structural)]
pub enum UnitError {
    /// The target path has no final segment to name the executable by.
    MissingFileName,
}

/// `key` followed by the value where there is one, else nothing.
pub open spec fn line_of(key: Seq<char>, v: Option<String>) -> Seq<char> {
    match v {
        Some(s) => key + s@,
        None => seq![],
    }
}

/// The service's description: the one given, else the name, the target's
/// final segment and the raw arguments, separated by single spaces.
pub open spec fn description_of(cli: Cli, target: Seq<char>) -> Seq<char> {
    match cli.description {
        Some(d) => d@,
        None => cli.name@ + seq![' '] + last_segment(target) + seq![' '] + joined(
            texts(cli.args@),
            seq![' '],
        ),
    }
}

/// The syslog identifier: the one given, else the service's name.
pub open spec fn syslog_id_of(cli: Cli) -> Seq<char> {
    match cli.syslog_id {
        Some(s) => s@,
        None => cli.name@,
    }
}

/// The (token name, replacement) pairs for a unit, in the order they are
/// applied, given the resolved working directory and target.
pub open spec fn unit_pairs(cli: Cli, workdir: Seq<char>, target: Seq<char>) -> Seq<
    (Seq<char>, Seq<char>),
> {
    seq![
        ("name"@, cli.name@),
        ("workdir"@, workdir),
        ("target"@, target),
        ("user-line"@, line_of("User="@, cli.username)),
        ("usergr-line"@, line_of("Group="@, cli.usergroup)),
        ("description"@, description_of(cli, target)),
        ("syslogid"@, syslog_id_of(cli)),
        ("restart"@, cli.restart@),
        ("restart_after"@, decimal(cli.restart_after as nat)),
        ("args"@, joined(texts(cli.args@).map_values(|a: Seq<char>| quoted(a)), seq![' '])),
    ]
}

/// `key` followed by the value where there is one, else the empty string.
pub fn optional_line(key: &str, v: &Option<String>) -> (r: String)
    ensures
        r@ == line_of(key@, *v),
{
    match v {
        Some(s) => {
            let mut r = String::from_str(key);
            r.append(s.as_str());
            r
        },
        None => String::new(),
    }
}

/// The description that stands where none is given.
pub fn default_description(name: &str, target_basename: &str, args: &Vec<String>) -> (r: String)
    ensures
        r@ == name@ + seq![' '] + target_basename@ + seq![' '] + joined(texts(args@), seq![' ']),
{
    let mut r = String::from_str(name);
    r.push(' ');
    r.append(target_basename);
    r.push(' ');
    let joined_args = join_spaced(args);
    r.append(joined_args.as_str());
    proof {
        assert(r@ =~= name@ + seq![' '] + target_basename@ + seq![' '] + joined(
            texts(args@),
            seq![' '],
        ));
    }
    r
}

/// The pairs for a unit, given the resolved working directory and target.
pub fn substitutions(cli: &Cli, workdir: &str, target: &str) -> (r: Result<
    Vec<(String, String)>,
    UnitError,
>)
    ensures
        last_segment(target@).len() == 0 ==> r == Err::<Vec<(String, String)>, UnitError>(
            UnitError::MissingFileName,
        ),
        last_segment(target@).len() > 0 ==> r is Ok && pairs_view(r->Ok_0@) == unit_pairs(
            *cli,
            workdir@,
            target@,
        ),
{
    let base = match basename(target) {
        Some(b) => b,
        None => {
            return Err(UnitError::MissingFileName);
        },
    };
    let description = match &cli.description {
        Some(d) => d.clone(),
        None => default_description(cli.name.as_str(), base.as_str(), &cli.args),
    };
    let syslog_id = match &cli.syslog_id {
        Some(s) => s.clone(),
        None => cli.name.clone(),
    };
    let mut v: Vec<(String, String)> = Vec::new();
    v.push((String::from_str("name"), cli.name.clone()));
    v.push((String::from_str("workdir"), String::from_str(workdir)));
    v.push((String::from_str("target"), String::from_str(target)));
    v.push((String::from_str("user-line"), optional_line("User=", &cli.username)));
    v.push((String::from_str("usergr-line"), optional_line("Group=", &cli.usergroup)));
    v.push((String::from_str("description"), description));
    v.push((String::from_str("syslogid"), syslog_id));
    v.push((String::from_str("restart"), cli.restart.clone()));
    v.push((String::from_str("restart_after"), decimal_string(cli.restart_after)));
    v.push((String::from_str("args"), escape_args(&cli.args)));
    proof {
        assert(pairs_view(v@) =~= unit_pairs(*cli, workdir@, target@));
    }
    Ok(v)
}

/// The unit file: the template with every pair of the unit applied in order.
pub fn render_unit(cli: &Cli, workdir: &str, target: &str, template: &str) -> (r: Result<
    String,
    UnitError,
>)
    ensures
        last_segment(target@).len() == 0 ==> r == Err::<String, UnitError>(
            UnitError::MissingFileName,
        ),
        last_segment(target@).len() > 0 ==> r is Ok && r->Ok_0@ == substituted(
            template@,
            unit_pairs(*cli, workdir@, target@),
        ),
{
    match substitutions(cli, workdir, target) {
        Ok(pairs) => Ok(substitute(template, &pairs)),
        Err(e) => Err(e),
    }
}

/// The name of the file the unit is written to.
pub fn service_file_name(name: &str) -> (r: String)
    ensures
        r@ == name@ + ".service"@,
{
    let mut r = String::from_str(name);
    r.append(".service");
    r
}

/// An optional field left out fills its token with the empty string: the
/// placeholder is removed, not kept.
pub proof fn lemma_absent_field_empties_token(
    a: Seq<char>,
    b: Seq<char>,
    name: Seq<char>,
    key: Seq<char>,
    v: Option<String>,
)
    requires
        v is None,
        !name.contains('<'),
        !occurs(a, token_text(name)),
        !occurs(b, token_text(name)),
    ensures
        line_of(key, v) == Seq::<char>::empty(),
        substituted(a + token_text(name) + b, seq![(name, line_of(key, v))]) == a + b,
{
    let tok = token_text(name);
    let e = Seq::<char>::empty();
    lemma_token_opens_once(name);
    lemma_leading_occurrence(a, tok, b, e);
    lemma_absent_needle(b, tok, e);
    lemma_single_pair(a + tok + b, name, e);
    assert(a + e + b =~= a + b);
}

impl Cli {
    /// A command line with the given name and target and every other field
    /// at its default: template `rust.service.templ`, working directory `.`,
    /// restart `always` after 30 seconds, no optional fields, no arguments.
    pub fn new(name: String, target: String) -> (r: Cli)
        ensures
            r.name == name,
            r.target == target,
            r.template_file@ == "rust.service.templ"@,
            r.username is None,
            r.usergroup is None,
            r.description is None,
            r.syslog_id is None,
            r.workdir@ == "."@,
            r.restart@ == "always"@,
            r.restart_after == 30,
            r.args@.len() == 0,
    {
        Cli {
            name,
            target,
            template_file: String::from_str("rust.service.templ"),
            username: None,
            usergroup: None,
            description: None,
            syslog_id: None,
            workdir: String::from_str("."),
            restart: String::from_str("always"),
            restart_after: 30,
            args: Vec::new(),
        }
    }
}

}
