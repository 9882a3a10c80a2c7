//! The grammar of container log file names, `{pod}_{namespace}_{container}-{containerID}.log`,
//! and the file-name part of a path.
use vstd::prelude::*;

use crate::text::{char_free, chars_of, find_char, find_last_char, substring};

verus! {

/// The four fields that a container log file name carries.
pub struct LogFileName {
    pub pod_name: String,
    pub namespace: String,
    pub container_name: String,
    pub container_id: String,
}

/// The suffix `.log`.
pub open spec fn log_suffix() -> Seq<char> {
    seq!['.', 'l', 'o', 'g']
}

/// `name` reads `{pod}_{ns}_{container}-{id}.log` with these four fields: the pod and the
/// namespace are non-empty and hold no `_`; the container is non-empty (it may hold `-`); the id
/// is non-empty and holds neither `-` nor `.`, so it is what follows the last `-`.
pub open spec fn log_file_name_parts(
    name: Seq<char>,
    pod: Seq<char>,
    ns: Seq<char>,
    container: Seq<char>,
    id: Seq<char>,
) -> bool {
    &&& pod.len() > 0 && char_free(pod, '_')
    &&& ns.len() > 0 && char_free(ns, '_')
    &&& container.len() > 0
    &&& id.len() > 0 && char_free(id, '-') && char_free(id, '.')
    &&& name == pod + seq!['_'] + ns + seq!['_'] + container + seq!['-'] + id + log_suffix()
}

/// `name` follows the container log file name grammar.
pub open spec fn is_log_file_name(name: Seq<char>) -> bool {
    exists|pod: Seq<char>, ns: Seq<char>, container: Seq<char>, id: Seq<char>|
        log_file_name_parts(name, pod, ns, container, id)
}

/// A file name has the extension `log` (as `Path::extension` reads it: the part after the
/// last `.`, where something precedes that `.`).
pub open spec fn has_log_extension(name: Seq<char>) -> bool {
    name.len() >= 5 && name.skip(name.len() - 4) == log_suffix()
}

/// Where the separators of a log file name stand, given its fields.
proof fn lemma_parts_positions(
    name: Seq<char>,
    pod: Seq<char>,
    ns: Seq<char>,
    container: Seq<char>,
    id: Seq<char>,
)
    requires
        log_file_name_parts(name, pod, ns, container, id),
    ensures
        ({
            let o1 = pod.len() as int;
            let o2 = o1 + 1 + ns.len();
            let o3 = o2 + 1 + container.len();
            let o4 = o3 + 1 + id.len();
            &&& name.len() == o4 + 4
            &&& name[o1] == '_' && forall|j: int| 0 <= j < o1 ==> name[j] != '_'
            &&& name[o2] == '_' && forall|j: int| o1 + 1 <= j < o2 ==> name[j] != '_'
            &&& name[o3] == '-' && forall|j: int| o3 < j < o4 ==> name[j] != '-' && name[j] != '.'
            &&& name[o4] == '.' && name[o4 + 1] == 'l' && name[o4 + 2] == 'o' && name[o4 + 3] == 'g'
            &&& name.subrange(0, o1) == pod
            &&& name.subrange(o1 + 1, o2) == ns
            &&& name.subrange(o2 + 1, o3) == container
            &&& name.subrange(o3 + 1, o4) == id
        }),
{
    let o1 = pod.len() as int;
    let o2 = o1 + 1 + ns.len();
    let o3 = o2 + 1 + container.len();
    let o4 = o3 + 1 + id.len();
    let s1 = pod + seq!['_'];
    let s2 = s1 + ns;
    let s3 = s2 + seq!['_'];
    let s4 = s3 + container;
    let s5 = s4 + seq!['-'];
    let s6 = s5 + id;
    assert(name == s6 + log_suffix());
    assert forall|j: int| 0 <= j < o1 implies name[j] != '_' by {
        assert(name[j] == pod[j]);
    }
    assert forall|j: int| o1 + 1 <= j < o2 implies name[j] != '_' by {
        assert(name[j] == ns[j - o1 - 1]);
    }
    assert forall|j: int| o3 < j < o4 implies name[j] != '-' && name[j] != '.' by {
        assert(name[j] == id[j - o3 - 1]);
    }
    assert(name.subrange(0, o1) =~= pod);
    assert(name.subrange(o1 + 1, o2) =~= ns);
    assert(name.subrange(o2 + 1, o3) =~= container);
    assert(name.subrange(o3 + 1, o4) =~= id);
}

/// The grammar is unambiguous: a log file name has exactly one reading into its four fields.
pub proof fn lemma_log_file_name_unambiguous(
    name: Seq<char>,
    pod1: Seq<char>,
    ns1: Seq<char>,
    container1: Seq<char>,
    id1: Seq<char>,
    pod2: Seq<char>,
    ns2: Seq<char>,
    container2: Seq<char>,
    id2: Seq<char>,
)
    requires
        log_file_name_parts(name, pod1, ns1, container1, id1),
        log_file_name_parts(name, pod2, ns2, container2, id2),
    ensures
        pod1 == pod2,
        ns1 == ns2,
        container1 == container2,
        id1 == id2,
{
    lemma_parts_positions(name, pod1, ns1, container1, id1);
    lemma_parts_positions(name, pod2, ns2, container2, id2);
    let a1 = pod1.len() as int;
    let a2 = pod2.len() as int;
    if a1 < a2 {
        assert(name[a1] == '_');
    }
    if a2 < a1 {
        assert(name[a2] == '_');
    }
    let b1 = a1 + 1 + ns1.len();
    let b2 = a1 + 1 + ns2.len();
    if b1 < b2 {
        assert(name[b1] == '_');
    }
    if b2 < b1 {
        assert(name[b2] == '_');
    }
    let c1 = b1 + 1 + container1.len();
    let c2 = b1 + 1 + container2.len();
    if c1 < c2 {
        assert(name[c2] == '-');
    }
    if c2 < c1 {
        assert(name[c1] == '-');
    }
}

/// Reads a container log file name into its four fields; `None` when the name does not follow
/// the grammar.
#[verifier::rlimit(40)]
pub fn parse_log_file_name(name: &str) -> (r: Option<LogFileName>)
    ensures
        r is Some <==> is_log_file_name(name@),
        r matches Some(f) ==> log_file_name_parts(
            name@,
            f.pod_name@,
            f.namespace@,
            f.container_name@,
            f.container_id@,
        ),
{
    let v = chars_of(name);
    let n = v.len();
    let ghost s = name@;
    let ghost w = choose|pod: Seq<char>, ns: Seq<char>, container: Seq<char>, id: Seq<char>|
        log_file_name_parts(s, pod, ns, container, id);
    proof {
        if is_log_file_name(s) {
            lemma_parts_positions(s, w.0, w.1, w.2, w.3);
        }
    }
    let i1 = match find_char(&v, '_', 0) {
        Some(k) => k,
        None => {
            return None;
        },
    };
    if i1 == 0 {
        return None;
    }
    let i2 = match find_char(&v, '_', i1 + 1) {
        Some(k) => k,
        None => {
            return None;
        },
    };
    if i2 == i1 + 1 {
        return None;
    }
    if n - i2 < 5 || v[n - 4] != '.' || v[n - 3] != 'l' || v[n - 2] != 'o' || v[n - 1] != 'g' {
        return None;
    }
    let i4 = n - 4;
    let i3 = match find_last_char(&v, '-', i2 + 1, i4) {
        Some(k) => k,
        None => {
            return None;
        },
    };
    if i3 == i2 + 1 || i3 + 1 == i4 {
        return None;
    }
    match find_char(&v, '.', i3 + 1) {
        Some(k) => {
            if k != i4 {
                return None;
            }
        },
        None => {
            return None;
        },
    }
    let pod_name = substring(&v, 0, i1);
    let namespace = substring(&v, i1 + 1, i2);
    let container_name = substring(&v, i2 + 1, i3);
    let container_id = substring(&v, i3 + 1, i4);
    proof {
        assert forall|j: int| 0 <= j < pod_name@.len() implies pod_name@[j] != '_' by {
            assert(pod_name@[j] == s[j]);
        }
        assert forall|j: int| 0 <= j < namespace@.len() implies namespace@[j] != '_' by {
            assert(namespace@[j] == s[i1 + 1 + j]);
        }
        assert forall|j: int| 0 <= j < container_id@.len() implies container_id@[j] != '-'
            && container_id@[j] != '.' by {
            assert(container_id@[j] == s[i3 + 1 + j]);
        }
        assert(s =~= pod_name@ + seq!['_'] + namespace@ + seq!['_'] + container_name@ + seq!['-']
            + container_id@ + log_suffix());
        assert(log_file_name_parts(
            s,
            pod_name@,
            namespace@,
            container_name@,
            container_id@,
        ));
    }
    Some(LogFileName { pod_name, namespace, container_name, container_id })
}

/// Whether a file name has the extension `log`.
pub fn log_extension(name: &Vec<char>) -> (r: bool)
    ensures
        r == has_log_extension(name@),
{
    let n = name.len();
    if n < 5 {
        return false;
    }
    let r = name[n - 4] == '.' && name[n - 3] == 'l' && name[n - 2] == 'o' && name[n - 1] == 'g';
    proof {
        if r {
            assert(name@.skip(n - 4) =~= log_suffix());
        } else {
            if name@.skip(n - 4) == log_suffix() {
                assert(name@.skip(n - 4)[0] == name@[n - 4]);
                assert(name@.skip(n - 4)[1] == name@[n - 3]);
                assert(name@.skip(n - 4)[2] == name@[n - 2]);
                assert(name@.skip(n - 4)[3] == name@[n - 1]);
            }
        }
    }
    r
}

/// The component a path keeps after the characters `cur` that followed its last `/`: they make
/// the new last component unless they are empty or `.` (which paths leave out).
pub open spec fn keep_component(last: Option<Seq<char>>, cur: Seq<char>) -> Option<Seq<char>> {
    if cur.len() == 0 || cur == seq!['.'] {
        last
    } else {
        Some(cur)
    }
}

/// Reading a path from the left: its last component so far, and the characters since the last
/// `/`.
pub open spec fn path_scan(path: Seq<char>) -> (Option<Seq<char>>, Seq<char>)
    decreases path.len(),
{
    if path.len() == 0 {
        (None, Seq::empty())
    } else {
        let (last, cur) = path_scan(path.drop_last());
        if path.last() == '/' {
            (keep_component(last, cur), Seq::empty())
        } else {
            (last, cur.push(path.last()))
        }
    }
}

/// The file name of a Unix path, as `Path::file_name` gives it: its last component, where
/// components are split at `/` and empty and `.` components are left out; `None` if no
/// component is left or the last one is `..`.
pub open spec fn path_file_name(path: Seq<char>) -> Option<Seq<char>> {
    let (last, cur) = path_scan(path);
    match keep_component(last, cur) {
        Some(c) => if c == seq!['.', '.'] {
            None
        } else {
            Some(c)
        },
        None => None,
    }
}

/// The component kept from `v[start..end]`, if any, by index range.
fn keep_range(v: &Vec<char>, last: Option<(usize, usize)>, start: usize, end: usize) -> (r: Option<
    (usize, usize),
>)
    requires
        start <= end <= v@.len(),
        last matches Some(p) ==> p.0 <= p.1 <= v@.len(),
    ensures
        r matches Some(p) ==> p.0 <= p.1 <= v@.len(),
        r matches Some(p) ==> r == last || (p.0 == start && p.1 == end),
        keep_component(
            match last {
                Some(p) => Some(v@.subrange(p.0 as int, p.1 as int)),
                None => None,
            },
            v@.subrange(start as int, end as int),
        ) == match r {
            Some(p) => Some(v@.subrange(p.0 as int, p.1 as int)),
            None => None::<Seq<char>>,
        },
{
    let ghost cur = v@.subrange(start as int, end as int);
    if end == start {
        last
    } else if end - start == 1 && v[start] == '.' {
        assert(cur =~= seq!['.']);
        last
    } else {
        proof {
            if end - start == 1 {
                assert(cur[0] == v@[start as int]);
            }
            assert(cur.len() == end - start);
            assert(seq!['.'].len() == 1);
            assert(seq!['.'][0] == '.');
        }
        Some((start, end))
    }
}

/// The file name of a Unix path, as `Path::file_name` gives it.
pub fn file_name_of(path: &str) -> (r: Option<String>)
    ensures
        r is Some == path_file_name(path@) is Some,
        r matches Some(n) ==> path_file_name(path@) == Some(n@),
{
    let v = chars_of(path);
    let n = v.len();
    let mut last: Option<(usize, usize)> = None;
    let mut start: usize = 0;
    for i in 0..n
        invariant
            n == v@.len(),
            v@ == path@,
            start <= i,
            last matches Some(p) ==> p.0 <= p.1 <= i,
            path_scan(v@.take(i as int)) == (
                match last {
                    Some(p) => Some(v@.subrange(p.0 as int, p.1 as int)),
                    None => None::<Seq<char>>,
                },
                v@.subrange(start as int, i as int),
            ),
    {
        proof {
            assert(v@.take(i + 1).drop_last() =~= v@.take(i as int));
            assert(v@.take(i + 1).last() == v@[i as int]);
        }
        if v[i] == '/' {
            last = keep_range(&v, last, start, i);
            start = i + 1;
            assert(v@.subrange(start as int, i + 1) =~= Seq::<char>::empty());
        } else {
            assert(v@.subrange(start as int, i + 1) =~= v@.subrange(start as int, i as int).push(
                v@[i as int],
            ));
        }
    }
    assert(v@.take(n as int) =~= v@);
    match keep_range(&v, last, start, n) {
        Some((a, b)) => {
            let ghost c = v@.subrange(a as int, b as int);
            if b - a == 2 && v[a] == '.' && v[a + 1] == '.' {
                assert(c =~= seq!['.', '.']);
                None
            } else {
                assert(c != seq!['.', '.']) by {
                    let dots = seq!['.', '.'];
                    assert(dots.len() == 2);
                    assert(dots[0] == '.' && dots[1] == '.');
                    assert(c.len() == b - a);
                    if b - a == 2 {
                        assert(c[0] == v@[a as int]);
                        assert(c[1] == v@[a + 1]);
                        if v@[a as int] != '.' {
                            assert(c[0] != dots[0]);
                        } else {
                            assert(c[1] != dots[1]);
                        }
                    } else {
                        assert(c.len() != dots.len());
                    }
                }
                Some(substring(&v, a, b))
            }
        },
        None => None,
    }
}

} // verus!
