//! Paths as text: joining, components, and the places deskd keeps its files.

use crate::text::concat2;
use crate::text::concat3;
use crate::text::from_chars;
use crate::text::index_of;
use crate::text::lemma_index_of;
use crate::text::lemma_index_of_is_first;
use crate::text::text_eq;
use crate::text::texts;
use crate::text::to_chars;
use vstd::prelude::*;

verus! {

// ─── Joining ────────────────────────────────────────────────────────────────

/// `rel` below `base`; an absolute `rel` stands alone.
pub open spec fn path_joined(base: Seq<char>, rel: Seq<char>) -> Seq<char> {
    if rel.len() > 0 && rel[0] == '/' {
        rel
    } else if base.len() == 0 || base.last() == '/' {
        base + rel
    } else {
        base + "/"@ + rel
    }
}

/// Joins two paths.
pub fn path_join(base: &str, rel: &str) -> (r: String)
    ensures
        r@ == path_joined(base@, rel@),
{
    let b = to_chars(base);
    let c = to_chars(rel);
    if c.len() > 0 && c[0] == '/' {
        rel.to_owned()
    } else if b.len() == 0 || b[b.len() - 1] == '/' {
        concat2(base, rel)
    } else {
        concat3(base, "/", rel)
    }
}

/// Joins the parts of a path, from left to right.
pub open spec fn path_of(base: Seq<char>, parts: Seq<Seq<char>>) -> Seq<char>
    decreases parts.len(),
{
    if parts.len() == 0 {
        base
    } else {
        path_joined(path_of(base, parts.drop_last()), parts.last())
    }
}

/// The bus socket of the agent that works in the directory.
pub open spec fn bus_socket_of(work_dir: Seq<char>) -> Seq<char> {
    path_joined(path_joined(work_dir, ".deskd"@), "bus.sock"@)
}

/// The bus socket of an agent: `{work_dir}/.deskd/bus.sock`.
pub fn agent_bus_socket(work_dir: &str) -> (r: String)
    ensures
        r@ == bus_socket_of(work_dir@),
{
    path_join(path_join(work_dir, ".deskd").as_str(), "bus.sock")
}

/// The directory below a home directory: `{home}/.deskd/{name}`.
pub open spec fn home_dir_of(home: Seq<char>, name: Seq<char>) -> Seq<char> {
    path_joined(path_joined(home, ".deskd"@), name)
}

/// The arguments of `chown` that hand a directory and all in it to a user.
pub fn chown_args(dir: &str, user: &str) -> (r: Vec<String>)
    ensures
        texts(r@) == seq!["-R"@, user@ + ":"@ + user@, dir@],
{
    let mut args: Vec<String> = Vec::new();
    args.push("-R".to_owned());
    args.push(concat3(user, ":", user));
    args.push(dir.to_owned());
    assert(texts(args@) =~= seq!["-R"@, user@ + ":"@ + user@, dir@]);
    args
}

/// Where agent states are kept: `{home}/.deskd/agents`.
pub fn state_dir_in(home: &str) -> (r: String)
    ensures
        r@ == home_dir_of(home@, "agents"@),
{
    path_join(path_join(home, ".deskd").as_str(), "agents")
}

/// Where logs are kept: `{home}/.deskd/logs`.
pub fn log_dir_in(home: &str) -> (r: String)
    ensures
        r@ == home_dir_of(home@, "logs"@),
{
    path_join(path_join(home, ".deskd").as_str(), "logs")
}

/// Where reminders are kept: `{home}/.deskd/reminders`.
pub fn reminders_dir_in(home: &str) -> (r: String)
    ensures
        r@ == home_dir_of(home@, "reminders"@),
{
    path_join(path_join(home, ".deskd").as_str(), "reminders")
}

/// Where the web secret is kept: `{home}/.deskd/web-secret`.
pub fn secret_path_in(home: &str) -> (r: String)
    ensures
        r@ == home_dir_of(home@, "web-secret"@),
{
    path_join(path_join(home, ".deskd").as_str(), "web-secret")
}

/// Where the signing key is kept: `{home}/.deskd/a2a_key.pem`.
pub fn default_key_path_in(home: &str) -> (r: String)
    ensures
        r@ == home_dir_of(home@, "a2a_key.pem"@),
{
    path_join(path_join(home, ".deskd").as_str(), "a2a_key.pem")
}

/// Where the context measurements of an agent are kept:
/// `{home}/.deskd/logs/{agent}/context.jsonl`.
pub fn context_log_path_in(home: &str, agent_name: &str) -> (r: String)
    ensures
        r@ == path_joined(
            path_joined(home_dir_of(home@, "logs"@), agent_name@),
            "context.jsonl"@,
        ),
{
    let logs = log_dir_in(home);
    path_join(path_join(logs.as_str(), agent_name).as_str(), "context.jsonl")
}

/// The bus socket lies in the `.deskd` directory of the work directory.
pub proof fn law_bus_socket_layout(work_dir: Seq<char>)
    requires
        work_dir.len() > 0,
        work_dir.last() != '/',
    ensures
        bus_socket_of(work_dir) == work_dir + "/.deskd/bus.sock"@,
{
    reveal_strlit(".deskd");
    reveal_strlit("bus.sock");
    reveal_strlit("/");
    reveal_strlit("/.deskd/bus.sock");
    assert(path_joined(work_dir, ".deskd"@).last() == 'd');
    assert(bus_socket_of(work_dir) =~= work_dir + "/.deskd/bus.sock"@);
}

/// Agents that work in different directories have different buses.
pub proof fn law_own_bus(a: Seq<char>, b: Seq<char>)
    requires
        a.len() > 0 && a.last() != '/',
        b.len() > 0 && b.last() != '/',
        a != b,
    ensures
        bus_socket_of(a) != bus_socket_of(b),
{
    law_bus_socket_layout(a);
    law_bus_socket_layout(b);
    let tail = "/.deskd/bus.sock"@;
    if a + tail == b + tail {
        assert((a + tail).len() == (b + tail).len());
        assert(a =~= (a + tail).take(a.len() as int));
        assert(b =~= (b + tail).take(b.len() as int));
    }
}

// ─── Components ─────────────────────────────────────────────────────────────

/// The text cut at every `/`.
pub open spec fn slash_pieces(s: Seq<char>) -> Seq<Seq<char>>
    decreases s.len(),
    via slash_pieces_decreases
{
    let k = index_of(s, '/');
    if k >= s.len() {
        seq![s]
    } else {
        seq![s.take(k)] + slash_pieces(s.skip(k + 1))
    }
}

#[via_fn]
proof fn slash_pieces_decreases(s: Seq<char>) {
    lemma_index_of_is_first(s, '/');
}

/// Whether the `i`-th piece of a path is one of its components: empty pieces are
/// not, and `.` is one only in front.
pub open spec fn counts(pieces: Seq<Seq<char>>, i: int) -> bool {
    pieces[i].len() > 0 && (pieces[i] != "."@ || i == 0)
}

/// The first `n` pieces that are components.
pub open spec fn kept(pieces: Seq<Seq<char>>, n: nat) -> Seq<Seq<char>>
    decreases n,
{
    if n == 0 {
        Seq::empty()
    } else {
        let front = kept(pieces, (n - 1) as nat);
        if counts(pieces, n - 1) {
            front.push(pieces[n - 1])
        } else {
            front
        }
    }
}

/// The components of a path; the root is the component `/`.
pub open spec fn components_of(path: Seq<char>) -> Seq<Seq<char>> {
    let pieces = slash_pieces(path);
    let names = kept(pieces, pieces.len());
    if path.len() > 0 && path[0] == '/' {
        seq!["/"@] + names
    } else {
        names
    }
}

/// Whether the first path lies in the second one, or is it.
pub open spec fn within(path: Seq<char>, dir: Seq<char>) -> bool {
    let p = components_of(path);
    let d = components_of(dir);
    d.len() <= p.len() && p.take(d.len() as int) == d
}

/// Cuts the text at every `/`.
pub fn split_slash(s: &str) -> (r: Vec<String>)
    ensures
        texts(r@) == slash_pieces(s@),
{
    let v = to_chars(s);
    let mut out: Vec<String> = Vec::new();
    let mut start: usize = 0;
    let mut i: usize = 0;
    assert(v@.skip(0) =~= v@);
    assert(texts(out@) + slash_pieces(v@.skip(0)) =~= slash_pieces(v@));
    while i < v.len()
        invariant
            start <= i <= v@.len(),
            forall|k: int| start <= k < i ==> v@[k] != '/',
            texts(out@) + slash_pieces(v@.skip(start as int)) == slash_pieces(v@),
        decreases v@.len() - i,
    {
        if v[i] == '/' {
            let piece = from_chars(&v, start, i);
            proof {
                let rest = v@.skip(start as int);
                lemma_index_of(rest, '/', i - start);
                assert(rest.take(i - start) =~= piece@);
                assert(rest.skip(i - start + 1) =~= v@.skip(i + 1));
                assert(texts(out@.push(piece)) =~= texts(out@).push(piece@));
                assert(texts(out@) + (seq![piece@] + slash_pieces(v@.skip(i + 1))) =~= texts(
                    out@,
                ).push(piece@) + slash_pieces(v@.skip(i + 1)));
            }
            out.push(piece);
            start = i + 1;
        }
        i += 1;
    }
    let piece = from_chars(&v, start, v.len());
    proof {
        let rest = v@.skip(start as int);
        lemma_index_of(rest, '/', rest.len() as int);
        assert(rest =~= piece@);
        assert(texts(out@.push(piece)) =~= texts(out@) + seq![piece@]);
    }
    out.push(piece);
    out
}

/// The components of a path.
pub fn path_components(path: &str) -> (r: Vec<String>)
    ensures
        texts(r@) == components_of(path@),
{
    let pieces = split_slash(path);
    let chars = to_chars(path);
    let ghost all = slash_pieces(path@);
    let mut out: Vec<String> = Vec::new();
    if chars.len() > 0 && chars[0] == '/' {
        out.push("/".to_owned());
    }
    let ghost root = texts(out@);
    let mut i: usize = 0;
    assert(texts(out@) =~= root + kept(all, 0));
    while i < pieces.len()
        invariant
            i <= pieces@.len(),
            all == texts(pieces@),
            texts(out@) == root + kept(all, i as nat),
        decreases pieces@.len() - i,
    {
        assert(all[i as int] == pieces@[i as int]@);
        let piece = pieces[i].as_str();
        if !piece.is_empty() && (!text_eq(piece, ".") || i == 0) {
            let name = pieces[i].clone();
            proof {
                assert(texts(out@.push(name)) =~= texts(out@).push(name@));
                assert(root + kept(all, (i + 1) as nat) =~= (root + kept(all, i as nat)).push(
                    name@,
                ));
            }
            out.push(name);
        }
        i += 1;
    }
    proof {
        assert(all.len() == pieces@.len());
        if path@.len() > 0 && path@[0] == '/' {
            assert(root =~= seq!["/"@]);
        } else {
            assert(root =~= Seq::<Seq<char>>::empty());
            assert(root + kept(all, all.len()) =~= kept(all, all.len()));
        }
    }
    out
}

/// Whether the path lies in the directory, or is it: its components start with
/// those of the directory.
pub fn is_within(path: &str, dir: &str) -> (r: bool)
    ensures
        r == within(path@, dir@),
{
    let p = path_components(path);
    let d = path_components(dir);
    proof {
        assert(texts(p@).len() == p@.len());
        assert(texts(d@).len() == d@.len());
    }
    if d.len() > p.len() {
        return false;
    }
    let mut i: usize = 0;
    while i < d.len()
        invariant
            i <= d@.len() <= p@.len(),
            texts(p@) == components_of(path@),
            texts(d@) == components_of(dir@),
            forall|k: int| 0 <= k < i ==> (#[trigger] p@[k])@ == d@[k]@,
        decreases d@.len() - i,
    {
        if !text_eq(p[i].as_str(), d[i].as_str()) {
            assert(texts(p@).take(d@.len() as int)[i as int] == p@[i as int]@);
            assert(texts(d@)[i as int] == d@[i as int]@);
            return false;
        }
        i += 1;
    }
    proof {
        assert(texts(p@).take(d@.len() as int) =~= texts(d@));
    }
    true
}

/// Every path lies in itself.
pub proof fn law_within_reflexive(path: Seq<char>)
    ensures
        within(path, path),
{
    let p = components_of(path);
    assert(p.take(p.len() as int) =~= p);
}

/// A path in a directory that lies in another one lies in that one too.
pub proof fn law_within_transitive(a: Seq<char>, b: Seq<char>, c: Seq<char>)
    requires
        within(a, b),
        within(b, c),
    ensures
        within(a, c),
{
    let p = components_of(a);
    let q = components_of(b);
    let d = components_of(c);
    assert(p.take(q.len() as int).take(d.len() as int) =~= p.take(d.len() as int));
}

/// A relative path is joined behind a slash, an absolute one stands alone.
pub proof fn law_joined_behind_a_slash(base: Seq<char>, rel: Seq<char>)
    ensures
        rel.len() > 0 && rel[0] == '/' ==> path_joined(base, rel) == rel,
        base.len() > 0 && base.last() != '/' && (rel.len() == 0 || rel[0] != '/') ==> path_joined(
            base,
            rel,
        ) == base + seq!['/'] + rel,
        base.len() > 0 && base.last() == '/' && (rel.len() == 0 || rel[0] != '/') ==> path_joined(
            base,
            rel,
        ) == base + rel,
{
    reveal_strlit("/");
    assert("/"@ =~= seq!['/']);
}

/// The pieces of two texts with a slash between them are those of the one, and then those
/// of the other.
proof fn lemma_slash_pieces_concat(a: Seq<char>, b: Seq<char>)
    ensures
        slash_pieces(a + seq!['/'] + b) == slash_pieces(a) + slash_pieces(b),
        slash_pieces(a).len() > 0,
    decreases a.len(),
{
    let s = a + seq!['/'] + b;
    lemma_index_of_is_first(a, '/');
    lemma_index_of_is_first(s, '/');
    let k = index_of(a, '/');
    if k >= a.len() {
        assert forall|i: int| 0 <= i < a.len() implies s[i] != '/' by {
            assert(a[i] != '/');
        }
        assert(s[a.len() as int] == '/');
        lemma_index_of(s, '/', a.len() as int);
        assert(s.take(a.len() as int) =~= a);
        assert(s.skip(a.len() as int + 1) =~= b);
    } else {
        let rest = a.skip(k + 1);
        assert forall|i: int| 0 <= i < k implies s[i] != '/' by {
            assert(a[i] != '/');
        }
        assert(s[k] == '/');
        lemma_index_of(s, '/', k);
        assert(s.take(k) =~= a.take(k));
        assert(s.skip(k + 1) =~= rest + seq!['/'] + b);
        lemma_slash_pieces_concat(rest, b);
        assert(slash_pieces(s) =~= slash_pieces(a) + slash_pieces(b));
    }
}

proof fn lemma_kept_of_front(a: Seq<Seq<char>>, b: Seq<Seq<char>>, n: nat)
    requires
        n <= a.len(),
    ensures
        kept(a + b, n) == kept(a, n),
    decreases n,
{
    if n > 0 {
        lemma_kept_of_front(a, b, (n - 1) as nat);
    }
}

/// What lies in a directory under a name has the components of the directory, and the
/// name.
pub proof fn law_components_of_an_entry(dir: Seq<char>, name: Seq<char>)
    requires
        dir.len() > 0,
        name.len() > 0,
        name != "."@,
        !name.contains('/'),
    ensures
        components_of(dir + seq!['/'] + name) == components_of(dir).push(name),
{
    let s = dir + seq!['/'] + name;
    let p = slash_pieces(dir);
    lemma_slash_pieces_concat(dir, name);
    assert forall|i: int| 0 <= i < name.len() implies name[i] != '/' by {
        assert(name.contains(name[i]));
    }
    lemma_index_of(name, '/', name.len() as int);
    assert(slash_pieces(name) =~= seq![name]);
    assert(slash_pieces(s) =~= p + seq![name]);
    lemma_kept_of_front(p, seq![name], p.len());
    assert(kept(p + seq![name], (p.len() + 1) as nat) =~= kept(p, p.len()).push(name));
    assert(s[0] == dir[0]);
    assert(components_of(s) =~= components_of(dir).push(name));
}

/// An entry of a directory lies in it, and in no other entry of it: names are compared
/// whole.
pub proof fn law_within_by_whole_names(dir: Seq<char>, a: Seq<char>, b: Seq<char>)
    requires
        dir.len() > 0,
        a.len() > 0 && a != "."@ && !a.contains('/'),
        b.len() > 0 && b != "."@ && !b.contains('/'),
    ensures
        within(dir + seq!['/'] + a, dir),
        !within(dir, dir + seq!['/'] + a),
        within(dir + seq!['/'] + a, dir + seq!['/'] + b) <==> a == b,
{
    law_components_of_an_entry(dir, a);
    law_components_of_an_entry(dir, b);
    let d = components_of(dir);
    assert(d.push(a).take(d.len() as int) =~= d);
    assert(d.push(a).take(d.len() as int + 1) =~= d.push(a));
    if a != b {
        assert(d.push(a)[d.len() as int] != d.push(b)[d.len() as int]);
    }
}

/// What is kept below a home directory lies in its `.deskd`.
pub proof fn law_kept_below_home(home: Seq<char>, name: Seq<char>)
    requires
        home.len() > 0 && home.last() != '/',
        name.len() > 0 && name[0] != '/',
    ensures
        home_dir_of(home, name) == home + "/.deskd/"@ + name,
{
    reveal_strlit(".deskd");
    reveal_strlit("/");
    reveal_strlit("/.deskd/");
    assert(path_joined(home, ".deskd"@).last() == 'd');
    assert(home_dir_of(home, name) =~= home + "/.deskd/"@ + name);
}

} // verus!
