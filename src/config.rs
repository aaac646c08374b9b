//! Where the tool keeps its files, below a configuration directory that the
//! caller determines once at startup.
use vstd::prelude::*;
use vstd::string::*;

verus! {

/// `name` placed inside directory `base`, with one `/` between them.
pub open spec fn joined(base: Seq<char>, name: Seq<char>) -> Seq<char> {
    if base.len() == 0 || base.last() == '/' {
        base + name
    } else {
        base + seq!['/'] + name
    }
}

/// Appends a relative component to a directory path.
fn join(base: &str, name: &str) -> (r: String)
    ensures
        r@ == joined(base@, name@),
{
    proof {
        reveal_strlit("/");
    }
    let n = base.unicode_len();
    let mut r = String::from_str(base);
    if n > 0 {
        let last = base.get_char(n - 1);
        if last != '/' {
            r.append("/");
        }
    }
    r.append(name);
    r
}

/// The registry file.
pub fn get_state_file(config_dir: &str) -> (r: String)
    ensures
        r@ == joined(config_dir@, "state.json"@),
{
    join(config_dir, "state.json")
}

/// The directory of the per-service log files.
pub fn get_logs_dir(config_dir: &str) -> (r: String)
    ensures
        r@ == joined(config_dir@, "logs"@),
{
    join(config_dir, "logs")
}

/// How one character of a service path appears in a log file name: `/`
/// and the escape character `%` are escaped, every other character stands.
pub open spec fn escape_code(c: char) -> Seq<char> {
    if c == '/' {
        seq!['%', '2', 'F']
    } else if c == '%' {
        seq!['%', '2', '5']
    } else {
        seq![c]
    }
}

/// A service path as a single file name.
pub open spec fn escaped(s: Seq<char>) -> Seq<char>
    decreases s.len(),
{
    if s.len() == 0 {
        Seq::empty()
    } else {
        escape_code(s[0]) + escaped(s.drop_first())
    }
}

/// The log file of the service in directory `path`.
pub open spec fn log_file_of(config_dir: Seq<char>, path: Seq<char>) -> Seq<char> {
    joined(joined(config_dir, "logs"@), escaped(path) + ".log"@)
}

proof fn lemma_escaped_push(s: Seq<char>, c: char)
    ensures
        escaped(s.push(c)) == escaped(s) + escape_code(c),
    decreases s.len(),
{
    if s.len() == 0 {
        assert(s.push(c).drop_first() =~= Seq::<char>::empty());
        assert(s.push(c)[0] == c);
        assert(escaped(Seq::<char>::empty()) == Seq::<char>::empty());
        assert(escaped(s.push(c)) =~= escape_code(c));
    } else {
        assert(s.push(c).drop_first() =~= s.drop_first().push(c));
        lemma_escaped_push(s.drop_first(), c);
        assert(escaped(s.push(c)) =~= escaped(s) + escape_code(c));
    }
}

proof fn lemma_escaped_injective(a: Seq<char>, b: Seq<char>)
    requires
        escaped(a) == escaped(b),
    ensures
        a == b,
    decreases a.len(),
{
    if a.len() == 0 || b.len() == 0 {
        if a.len() > 0 {
            assert(escaped(a).len() > 0);
        }
        if b.len() > 0 {
            assert(escaped(b).len() > 0);
        }
        assert(a =~= b);
    } else {
        let ca = escape_code(a[0]);
        let cb = escape_code(b[0]);
        let e = escaped(a);
        assert(e == ca + escaped(a.drop_first()));
        assert(e == cb + escaped(b.drop_first()));
        assert(e[0] == ca[0] && e[0] == cb[0]);
        if ca.len() == 3 && cb.len() == 3 {
            assert(e[2] == ca[2] && e[2] == cb[2]);
        }
        assert(a[0] == b[0]);
        assert(escaped(a.drop_first()) =~= e.subrange(ca.len() as int, e.len() as int));
        assert(escaped(b.drop_first()) =~= e.subrange(ca.len() as int, e.len() as int));
        lemma_escaped_injective(a.drop_first(), b.drop_first());
        assert(a =~= seq![a[0]] + a.drop_first());
        assert(b =~= seq![b[0]] + b.drop_first());
    }
}

/// Escapes a service path into a file name.
fn escape_path(path: &str) -> (r: String)
    ensures
        r@ == escaped(path@),
{
    let n = path.unicode_len();
    let mut r = String::new();
    let mut i: usize = 0;
    proof {
        assert(path@.subrange(0, 0) =~= Seq::<char>::empty());
    }
    while i < n
        invariant
            n == path@.len(),
            i <= n,
            r@ == escaped(path@.subrange(0, i as int)),
        decreases n - i,
    {
        let c = path.get_char(i);
        proof {
            reveal_strlit("%2F");
            reveal_strlit("%25");
            assert(path@.subrange(0, i + 1) =~= path@.subrange(0, i as int).push(c));
            lemma_escaped_push(path@.subrange(0, i as int), c);
        }
        if c == '/' {
            r.append("%2F");
            proof {
                assert("%2F"@ =~= seq!['%', '2', 'F']);
            }
        } else if c == '%' {
            r.append("%25");
            proof {
                assert("%25"@ =~= seq!['%', '2', '5']);
            }
        } else {
            let piece = path.substring_char(i, i + 1);
            r.append(piece);
            proof {
                assert(piece@ =~= seq![c]);
            }
        }
        i = i + 1;
    }
    proof {
        assert(path@.subrange(0, n as int) =~= path@);
    }
    r
}

/// The log file of the service in directory `service_path`: the path,
/// escaped into one file name, inside the logs directory.
pub fn get_service_log_file(config_dir: &str, service_path: &str) -> (r: String)
    ensures
        r@ == log_file_of(config_dir@, service_path@),
{
    let name = escape_path(service_path).concat(".log");
    let dir = get_logs_dir(config_dir);
    join(dir.as_str(), name.as_str())
}

/// Two different service directories never share a log file.
pub proof fn lemma_log_files_distinct(config_dir: Seq<char>, p1: Seq<char>, p2: Seq<char>)
    requires
        p1 != p2,
    ensures
        log_file_of(config_dir, p1) != log_file_of(config_dir, p2),
{
    reveal_strlit(".log");
    let base = joined(config_dir, "logs"@);
    let n1 = escaped(p1) + ".log"@;
    let n2 = escaped(p2) + ".log"@;
    if log_file_of(config_dir, p1) == log_file_of(config_dir, p2) {
        let sep: Seq<char> = if base.len() == 0 || base.last() == '/' {
            Seq::empty()
        } else {
            seq!['/']
        };
        let head = base + sep;
        assert(joined(base, n1) =~= head + n1);
        assert(joined(base, n2) =~= head + n2);
        assert(n1 =~= (head + n1).subrange(head.len() as int, (head + n1).len() as int));
        assert(n2 =~= (head + n2).subrange(head.len() as int, (head + n2).len() as int));
        assert(n1 == n2);
        assert(".log"@.len() == 4);
        assert(escaped(p1) =~= n1.subrange(0, n1.len() - 4));
        assert(escaped(p2) =~= n2.subrange(0, n2.len() - 4));
        lemma_escaped_injective(p1, p2);
    }
}

} // verus!
