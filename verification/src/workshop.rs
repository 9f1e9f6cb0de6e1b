//! Workshop packages: grouping a package's archives into multi-part sets,
//! reading archive listings, expanding destination placeholders and
//! keeping the lists of installed files.
use vstd::prelude::*;
use vstd::utf8::{encode_utf8, encode_utf8_decode_utf8};
use crate::anvil::{owned, decimal, digit_char};
use crate::text::push_char;

verus! {

// ---------------------------------------------------------------------
// Ordering names.
// ---------------------------------------------------------------------

/// Lexicographic order of byte strings (a proper prefix comes first).
pub open spec fn lex_lt(a: Seq<u8>, b: Seq<u8>) -> bool
    decreases a.len(),
{
    if a.len() == 0 {
        b.len() > 0
    } else if b.len() == 0 {
        false
    } else if a[0] != b[0] {
        a[0] < b[0]
    } else {
        lex_lt(a.drop_first(), b.drop_first())
    }
}

/// The order of names: that of their UTF-8 bytes.
pub open spec fn name_lt(a: Seq<char>, b: Seq<char>) -> bool {
    lex_lt(encode_utf8(a), encode_utf8(b))
}

proof fn lemma_lex_irreflexive(a: Seq<u8>)
    ensures
        !lex_lt(a, a),
    decreases a.len(),
{
    if a.len() > 0 {
        lemma_lex_irreflexive(a.drop_first());
    }
}

proof fn lemma_lex_trichotomy(a: Seq<u8>, b: Seq<u8>)
    ensures
        a != b ==> (lex_lt(a, b) || lex_lt(b, a)),
        !(lex_lt(a, b) && lex_lt(b, a)),
    decreases a.len(),
{
    if a.len() > 0 && b.len() > 0 {
        lemma_lex_trichotomy(a.drop_first(), b.drop_first());
        if a[0] == b[0] && a.drop_first() == b.drop_first() {
            assert(a =~= seq![a[0]] + a.drop_first());
            assert(b =~= seq![b[0]] + b.drop_first());
        }
    } else if a.len() == 0 && b.len() == 0 {
        assert(a =~= b);
    }
}

proof fn lemma_lex_transitive(a: Seq<u8>, b: Seq<u8>, c: Seq<u8>)
    requires
        lex_lt(a, b),
        lex_lt(b, c),
    ensures
        lex_lt(a, c),
    decreases a.len(),
{
    if a.len() > 0 && b.len() > 0 && c.len() > 0 && a[0] == b[0] && b[0] == c[0] {
        lemma_lex_transitive(a.drop_first(), b.drop_first(), c.drop_first());
    }
}

proof fn lemma_names_order(a: Seq<char>, b: Seq<char>)
    ensures
        a != b ==> (name_lt(a, b) || name_lt(b, a)),
        !(name_lt(a, b) && name_lt(b, a)),
        !name_lt(a, a),
{
    encode_utf8_decode_utf8(a);
    encode_utf8_decode_utf8(b);
    lemma_lex_trichotomy(encode_utf8(a), encode_utf8(b));
    lemma_lex_irreflexive(encode_utf8(a));
}

fn bytes_lt(a: &[u8], b: &[u8]) -> (r: bool)
    ensures
        r == lex_lt(a@, b@),
{
    let mut i: usize = 0;
    assert(a@.skip(0) =~= a@ && b@.skip(0) =~= b@);
    while i < a.len() && i < b.len() && a[i] == b[i]
        invariant
            i <= a@.len(),
            i <= b@.len(),
            a@.take(i as int) == b@.take(i as int),
            lex_lt(a@, b@) == lex_lt(a@.skip(i as int), b@.skip(i as int)),
        decreases a@.len() - i,
    {
        assert(a@.skip(i as int).drop_first() =~= a@.skip(i + 1));
        assert(b@.skip(i as int).drop_first() =~= b@.skip(i + 1));
        assert(a@.take(i + 1) =~= a@.take(i as int).push(a@[i as int]));
        assert(b@.take(i + 1) =~= b@.take(i as int).push(b@[i as int]));
        i += 1;
    }
    if i == a.len() {
        assert(a@.skip(i as int).len() == 0);
        i < b.len()
    } else if i == b.len() {
        false
    } else {
        assert(a@.skip(i as int)[0] == a@[i as int]);
        assert(b@.skip(i as int)[0] == b@[i as int]);
        a[i] < b[i]
    }
}

/// A package's archives as (name, destination) pairs.
pub type ArchiveEntry = (Seq<char>, Seq<char>);

/// The values of a list of (name, destination) pairs.
pub open spec fn entries_view(v: Seq<(String, String)>) -> Seq<ArchiveEntry> {
    Seq::new(v.len(), |i: int| (v[i].0@, v[i].1@))
}

/// No name occurs twice.
pub open spec fn distinct_names(e: Seq<ArchiveEntry>) -> bool {
    forall|i: int, j: int| 0 <= i < j < e.len() ==> #[trigger] e[i].0 != #[trigger] e[j].0
}

/// `p` lists each index below `n` once.
pub open spec fn is_permutation(p: Seq<int>, n: nat) -> bool {
    &&& p.len() == n
    &&& forall|k: int| 0 <= k < n ==> 0 <= #[trigger] p[k] < n
    &&& forall|a: int, b: int| 0 <= a < b < n ==> #[trigger] p[a] != #[trigger] p[b]
    &&& forall|t: int| 0 <= t < n ==> #[trigger] lists_index(p, t)
}

/// Whether `p` lists `t`.
pub open spec fn lists_index(p: Seq<int>, t: int) -> bool {
    exists|k: int| 0 <= k < p.len() && p[k] == t
}

/// Whether an order lists index `t`.
pub open spec fn order_lists(o: Seq<usize>, t: int) -> bool {
    exists|k: int| 0 <= k < o.len() && o[k] as int == t
}

/// The entries taken in the order `p`.
pub open spec fn permuted(e: Seq<ArchiveEntry>, p: Seq<int>) -> Seq<ArchiveEntry> {
    Seq::new(p.len(), |k: int| e[p[k]])
}

/// The names increase strictly.
pub open spec fn sorted_by_name(e: Seq<ArchiveEntry>) -> bool {
    forall|a: int, b: int| 0 <= a < b < e.len() ==> name_lt(#[trigger] e[a].0, #[trigger] e[b].0)
}

/// The order in which to visit the entries: indices sorted by name.
fn name_order(entries: &[(String, String)]) -> (r: Vec<usize>)
    requires
        distinct_names(entries_view(entries@)),
    ensures
        is_permutation(Seq::new(r@.len(), |k: int| r@[k] as int), entries@.len()),
        sorted_by_name(permuted(entries_view(entries@), Seq::new(r@.len(), |k: int| r@[k] as int))),
{
    let ghost e = entries_view(entries@);
    let n = entries.len();
    let mut order: Vec<usize> = Vec::new();
    let mut i: usize = 0;
    while i < n
        invariant
            n == entries@.len(),
            e == entries_view(entries@),
            distinct_names(e),
            i <= n,
            order@.len() == i,
            forall|k: int| 0 <= k < i ==> #[trigger] order@[k] < i,
            forall|a: int, b: int| 0 <= a < b < i ==> #[trigger] order@[a] != #[trigger] order@[b],
            forall|a: int, b: int| 0 <= a < b < i ==> name_lt(#[trigger] e[order@[a] as int].0, #[trigger] e[order@[b] as int].0),
            forall|t: int| 0 <= t < i ==> #[trigger] order_lists(order@, t),
        decreases n - i,
    {
        let key = entries[i].0.as_str().as_bytes();
        let mut pos: usize = 0;
        while pos < order.len() && bytes_lt(entries[order[pos]].0.as_str().as_bytes(), key)
            invariant
                n == entries@.len(),
                e == entries_view(entries@),
                i < n,
                pos <= order@.len(),
                order@.len() == i,
                forall|k: int| 0 <= k < i ==> #[trigger] order@[k] < i,
                key@ == encode_utf8(e[i as int].0),
                forall|k: int| 0 <= k < pos ==> name_lt(#[trigger] e[order@[k] as int].0, e[i as int].0),
            decreases order@.len() - pos,
        {
            pos += 1;
        }
        let ghost before = order@;
        proof {
            assert(e[i as int].0 == entries@[i as int].0@);
            if pos < before.len() {
                let j = before[pos as int] as int;
                assert(j < i);
                assert(e[j].0 != e[i as int].0);
                lemma_names_order(e[j].0, e[i as int].0);
                assert(name_lt(e[i as int].0, e[j].0));
                assert forall|b: int| pos <= b < i implies name_lt(e[i as int].0, #[trigger] e[before[b] as int].0) by {
                    if b > pos {
                        lemma_lex_transitive(
                            encode_utf8(e[i as int].0),
                            encode_utf8(e[j].0),
                            encode_utf8(e[before[b] as int].0),
                        );
                    }
                }
            }
        }
        order.insert(pos, i);
        proof {
            assert forall|t: int| 0 <= t < i + 1 implies #[trigger] order_lists(order@, t) by {
                if t == i {
                    assert(order@[pos as int] as int == t);
                } else {
                    assert(order_lists(before, t));
                    let k0 = choose|k: int| 0 <= k < before.len() && before[k] as int == t;
                    if k0 < pos {
                        assert(order@[k0] as int == t);
                    } else {
                        assert(order@[k0 + 1] as int == t);
                    }
                }
            }
            assert forall|k: int| 0 <= k < i + 1 implies #[trigger] order@[k] < i + 1 by {
                if k < pos {
                    assert(order@[k] == before[k]);
                } else if k > pos {
                    assert(order@[k] == before[k - 1]);
                }
            }
            assert forall|a: int, b: int| 0 <= a < b < i + 1 implies #[trigger] order@[a] != #[trigger] order@[b] by {
                if a != pos as int && b != pos as int {
                    let a0 = if a < pos { a } else { a - 1 };
                    let b0 = if b < pos { b } else { b - 1 };
                    assert(order@[a] == before[a0]);
                    assert(order@[b] == before[b0]);
                } else if a == pos as int {
                    assert(order@[b] == before[b - 1]);
                } else {
                    if a < pos {
                        assert(order@[a] == before[a]);
                    } else {
                        assert(order@[a] == before[a - 1]);
                    }
                }
            }
            assert forall|a: int, b: int| 0 <= a < b < i + 1 implies name_lt(#[trigger] e[order@[a] as int].0, #[trigger] e[order@[b] as int].0) by {
                if a != pos as int && b != pos as int {
                    let a0 = if a < pos { a } else { a - 1 };
                    let b0 = if b < pos { b } else { b - 1 };
                    assert(order@[a] == before[a0]);
                    assert(order@[b] == before[b0]);
                } else if a == pos as int {
                    assert(order@[b] == before[b - 1]);
                } else {
                    assert(order@[a] == before[a]);
                }
            }
        }
        i += 1;
    }
    let ghost p = Seq::new(order@.len(), |k: int| order@[k] as int);
    assert forall|t: int| 0 <= t < n implies #[trigger] lists_index(p, t) by {
        assert(order_lists(order@, t));
        let k0 = choose|k: int| 0 <= k < order@.len() && order@[k] as int == t;
        assert(p[k0] == t);
    }
    assert(sorted_by_name(permuted(e, p))) by {
        assert forall|a: int, b: int| 0 <= a < b < permuted(e, p).len() implies name_lt(
            #[trigger] permuted(e, p)[a].0,
            #[trigger] permuted(e, p)[b].0,
        ) by {
            assert(permuted(e, p)[a] == e[order@[a] as int]);
            assert(permuted(e, p)[b] == e[order@[b] as int]);
        }
    }
    order
}

// ---------------------------------------------------------------------
// Grouping a package's archives.
// ---------------------------------------------------------------------

/// Whether `name` ends in `.zip` in any letter case.
pub open spec fn is_zip_name(name: Seq<char>) -> bool {
    let n = name.len();
    &&& n >= 4
    &&& name[n - 4] == '.'
    &&& (name[n - 3] == 'z' || name[n - 3] == 'Z')
    &&& (name[n - 2] == 'i' || name[n - 2] == 'I')
    &&& (name[n - 1] == 'p' || name[n - 1] == 'P')
}

/// A `.zip` name without its extension.
pub open spec fn zip_base(name: Seq<char>) -> Seq<char> {
    name.take(name.len() - 4)
}

/// `n` in decimal, padded with zeros to `w` digits.
pub open spec fn padded(n: nat, w: nat) -> Seq<char> {
    let d = decimal(n);
    if d.len() < w {
        Seq::new((w - d.len()) as nat, |i: int| '0') + d
    } else {
        d
    }
}

/// The name of part `n` of a split archive: `base.zNN` (`split`) or
/// `base.zip.NNN`.
pub open spec fn part_name(base: Seq<char>, split: bool, n: nat) -> Seq<char> {
    if split {
        base + ".z"@ + padded(n, 2)
    } else {
        base + ".zip."@ + padded(n, 3)
    }
}

/// Whether an entry has the name `x`.
pub open spec fn has_name(e: Seq<ArchiveEntry>, x: Seq<char>) -> bool {
    exists|k: int| 0 <= k < e.len() && #[trigger] e[k].0 == x
}

/// The parts `n`, `n + 1`, ... that are present, up to the first missing
/// one (at most `fuel` of them).
pub open spec fn parts_from(e: Seq<ArchiveEntry>, base: Seq<char>, split: bool, n: nat, fuel: nat) -> Seq<Seq<char>>
    decreases fuel,
{
    if fuel == 0 || !has_name(e, part_name(base, split, n)) {
        seq![]
    } else {
        seq![part_name(base, split, n)] + parts_from(e, base, split, n + 1, (fuel - 1) as nat)
    }
}

/// The further parts of archive `base.zip`: its `.zNN` parts from 1 on,
/// or where there is none its `.zip.NNN` parts from 1 on. (No map has more
/// parts than entries, so the bound on their number is never reached.)
pub open spec fn more_parts(e: Seq<ArchiveEntry>, base: Seq<char>) -> Seq<Seq<char>> {
    let z = parts_from(e, base, true, 1, e.len());
    if z.len() > 0 {
        z
    } else {
        parts_from(e, base, false, 1, e.len())
    }
}

/// A group: the archive's parts in order, and where they go.
pub type ArchiveGroup = (Seq<Seq<char>>, Seq<char>);

/// The first pass over `s[..k]`: each `.zip` entry not yet taken starts a
/// group of it and its further parts, which are then taken.
pub open spec fn zip_groups(s: Seq<ArchiveEntry>, k: nat) -> (Seq<ArchiveGroup>, Seq<Seq<char>>)
    decreases k,
{
    if k == 0 || k > s.len() {
        (seq![], seq![])
    } else {
        let prev = zip_groups(s, (k - 1) as nat);
        let e = s[k - 1];
        if prev.1.contains(e.0) || !is_zip_name(e.0) {
            prev
        } else {
            let parts = seq![e.0] + more_parts(s, zip_base(e.0));
            (prev.0.push((parts, e.1)), prev.1 + parts)
        }
    }
}

/// The second pass over `s[..k]`: each entry not yet taken is a group of
/// its own.
pub open spec fn single_groups(s: Seq<ArchiveEntry>, k: nat, taken: Seq<Seq<char>>) -> (Seq<ArchiveGroup>, Seq<Seq<char>>)
    decreases k,
{
    if k == 0 || k > s.len() {
        (seq![], taken)
    } else {
        let prev = single_groups(s, (k - 1) as nat, taken);
        let e = s[k - 1];
        if prev.1.contains(e.0) {
            prev
        } else {
            (prev.0.push((seq![e.0], e.1)), prev.1.push(e.0))
        }
    }
}

/// The groups of archives sorted by name: the multi-part `.zip` groups,
/// then every other archive alone.
pub open spec fn archive_groups(s: Seq<ArchiveEntry>) -> Seq<ArchiveGroup> {
    let first = zip_groups(s, s.len());
    first.0 + single_groups(s, s.len(), first.1).0
}

/// The values of a list of groups.
pub open spec fn groups_view(v: Seq<(Vec<String>, String)>) -> Seq<ArchiveGroup> {
    Seq::new(v.len(), |i: int| (crate::launcher::strings_view(v[i].0@), v[i].1@))
}

pub(crate) fn decimal_usize(n: usize) -> (r: String)
    ensures
        r@ == decimal(n as nat),
    decreases n,
{
    if n < 10 {
        let mut s = String::new();
        push_char(&mut s, ((48 + n) as u8) as char);
        s
    } else {
        let mut s = decimal_usize(n / 10);
        push_char(&mut s, ((48 + n % 10) as u8) as char);
        s
    }
}

pub(crate) fn push_text(out: &mut String, t: &str)
    ensures
        final(out)@ == old(out)@ + t@,
{
    let ghost start = out@;
    for c in it: t.chars()
        invariant
            it.seq() == t@,
            out@ == start + t@.take(it.index() as int),
    {
        let ghost k = it.index();
        push_char(out, c);
        assert(out@ =~= start + t@.take(k + 1));
    }
    assert(t@.take(t@.len() as int) =~= t@);
}

fn part_text(base: &str, split: bool, n: usize) -> (r: String)
    ensures
        r@ == part_name(base@, split, n as nat),
{
    let d = decimal_usize(n);
    let w: usize = if split { 2 } else { 3 };
    let mut s = owned(base);
    if split {
        push_text(&mut s, ".z");
    } else {
        push_text(&mut s, ".zip.");
    }
    let ghost head = s@;
    let dl = d.as_str().unicode_len();
    let zeros: usize = if dl < w { w - dl } else { 0 };
    let mut k: usize = 0;
    while k < zeros
        invariant
            k <= zeros,
            s@ == head + Seq::new(k as nat, |i: int| '0'),
        decreases zeros - k,
    {
        push_char(&mut s, '0');
        k += 1;
        assert(s@ =~= head + Seq::new(k as nat, |i: int| '0'));
    }
    push_text(&mut s, d.as_str());
    proof {
        if dl >= w {
            assert(Seq::new(k as nat, |i: int| '0') =~= Seq::<char>::empty());
        }
        assert(s@ =~= head + padded(n as nat, w as nat));
    }
    s
}

fn zip_name_text(name: &str) -> (r: Option<String>)
    ensures
        match r {
            Some(b) => is_zip_name(name@) && b@ == zip_base(name@),
            None => !is_zip_name(name@),
        },
{
    let cs = crate::sign_text::chars_of(name);
    let n = cs.len();
    if n < 4 {
        return None;
    }
    let a = cs[n - 4];
    let b = cs[n - 3];
    let c = cs[n - 2];
    let d = cs[n - 1];
    if a == '.' && (b == 'z' || b == 'Z') && (c == 'i' || c == 'I') && (d == 'p' || d == 'P') {
        let mut base = String::new();
        let mut i: usize = 0;
        while i < n - 4
            invariant
                n == cs@.len(),
                n >= 4,
                i <= n - 4,
                base@ == cs@.take(i as int),
            decreases n - 4 - i,
        {
            push_char(&mut base, cs[i]);
            i += 1;
            assert(base@ =~= cs@.take(i as int));
        }
        Some(base)
    } else {
        None
    }
}

fn text_in(v: &Vec<String>, x: &str) -> (r: bool)
    ensures
        r == crate::launcher::strings_view(v@).contains(x@),
{
    let ghost sv = crate::launcher::strings_view(v@);
    let mut k: usize = 0;
    while k < v.len()
        invariant
            k <= v@.len(),
            sv == crate::launcher::strings_view(v@),
            forall|j: int| 0 <= j < k ==> #[trigger] sv[j] != x@,
        decreases v@.len() - k,
    {
        if crate::text::same_text(v[k].as_str(), x) {
            assert(sv[k as int] == x@);
            return true;
        }
        k += 1;
    }
    false
}

/// The indices of an order as integers.
pub open spec fn order_ints(o: Seq<usize>) -> Seq<int> {
    Seq::new(o.len(), |k: int| o[k] as int)
}

fn present(entries: &[(String, String)], order: &Vec<usize>, x: &str) -> (r: bool)
    requires
        forall|k: int| 0 <= k < order@.len() ==> #[trigger] order@[k] < entries@.len(),
    ensures
        r == has_name(permuted(entries_view(entries@), order_ints(order@)), x@),
{
    let ghost s = permuted(entries_view(entries@), order_ints(order@));
    let mut k: usize = 0;
    while k < order.len()
        invariant
            k <= order@.len(),
            s == permuted(entries_view(entries@), order_ints(order@)),
            forall|j: int| 0 <= j < order@.len() ==> #[trigger] order@[j] < entries@.len(),
            forall|j: int| 0 <= j < k ==> #[trigger] s[j].0 != x@,
        decreases order@.len() - k,
    {
        if crate::text::same_text(entries[order[k]].0.as_str(), x) {
            assert(s[k as int].0 == x@);
            return true;
        }
        k += 1;
    }
    false
}

fn collect_parts(
    entries: &[(String, String)],
    order: &Vec<usize>,
    base: &str,
    split: bool,
    parts: &mut Vec<String>,
    taken: &mut Vec<String>,
)
    requires
        forall|k: int| 0 <= k < order@.len() ==> #[trigger] order@[k] < entries@.len(),
    ensures
        crate::launcher::strings_view(final(parts)@) == crate::launcher::strings_view(old(parts)@) + parts_from(
            permuted(entries_view(entries@), order_ints(order@)),
            base@,
            split,
            1,
            order@.len() as nat,
        ),
        crate::launcher::strings_view(final(taken)@) == crate::launcher::strings_view(old(taken)@) + parts_from(
            permuted(entries_view(entries@), order_ints(order@)),
            base@,
            split,
            1,
            order@.len() as nat,
        ),
{
    let ghost s = permuted(entries_view(entries@), order_ints(order@));
    let ghost total = parts_from(s, base@, split, 1, order@.len() as nat);
    let ghost p0 = crate::launcher::strings_view(parts@);
    let ghost t0 = crate::launcher::strings_view(taken@);
    let len = order.len();
    let mut m: usize = 0;
    let mut done = false;
    let ghost mut got: Seq<Seq<char>> = seq![];
    while !done && m < len
        invariant
            len == order@.len(),
            s == permuted(entries_view(entries@), order_ints(order@)),
            forall|k: int| 0 <= k < order@.len() ==> #[trigger] order@[k] < entries@.len(),
            m <= len,
            crate::launcher::strings_view(parts@) == p0 + got,
            crate::launcher::strings_view(taken@) == t0 + got,
            total == got + (if done {
                Seq::<Seq<char>>::empty()
            } else {
                parts_from(s, base@, split, (m + 1) as nat, (len - m) as nat)
            }),
        decreases len - m + (if done { 0int } else { 1int }),
    {
        let n = m + 1;
        let cand = part_text(base, split, n);
        if present(entries, order, cand.as_str()) {
            let ghost before_p = crate::launcher::strings_view(parts@);
            let ghost before_t = crate::launcher::strings_view(taken@);
            let c2 = owned(cand.as_str());
            parts.push(cand);
            taken.push(c2);
            proof {
                assert(crate::launcher::strings_view(parts@) =~= before_p.push(part_name(base@, split, n as nat)));
                assert(crate::launcher::strings_view(taken@) =~= before_t.push(part_name(base@, split, n as nat)));
                assert(parts_from(s, base@, split, n as nat, (len - m) as nat) == seq![part_name(base@, split, n as nat)]
                    + parts_from(s, base@, split, (n + 1) as nat, (len - m - 1) as nat));
                got = got.push(part_name(base@, split, n as nat));
                assert(p0 + got =~= before_p.push(part_name(base@, split, n as nat)));
                assert(t0 + got =~= before_t.push(part_name(base@, split, n as nat)));
            }
            m += 1;
            proof {
                assert(total =~= got + parts_from(s, base@, split, (m + 1) as nat, (len - m) as nat));
            }
        } else {
            done = true;
            assert(total =~= got + Seq::<Seq<char>>::empty());
        }
    }
    proof {
        if !done {
            assert(total =~= got);
        }
        assert(total =~= got);
    }
}

/// Groups a package's archives (pairs of name and destination, names
/// distinct) into multi-part sets, visiting the names in order (see
/// `archive_groups`).
pub fn group_archives(entries: &[(String, String)]) -> (r: Vec<(Vec<String>, String)>)
    requires
        distinct_names(entries_view(entries@)),
    ensures
        exists|p: Seq<int>|
            is_permutation(p, entries@.len()) && sorted_by_name(#[trigger] permuted(entries_view(entries@), p))
                && groups_view(r@) == archive_groups(permuted(entries_view(entries@), p)),
{
    let order = name_order(entries);
    let ghost p = order_ints(order@);
    let ghost e = entries_view(entries@);
    let ghost s = permuted(e, p);
    assert(p =~= Seq::new(order@.len(), |k: int| order@[k] as int));
    let n = order.len();
    assert forall|k: int| 0 <= k < n implies #[trigger] order@[k] < entries@.len() by {
        assert(p[k] == order@[k] as int);
    }
    let mut groups: Vec<(Vec<String>, String)> = Vec::new();
    let mut taken: Vec<String> = Vec::new();
    let mut k: usize = 0;
    while k < n
        invariant
            n == order@.len() == s.len() == entries@.len(),
            p == order_ints(order@),
            s == permuted(e, p),
            e == entries_view(entries@),
            is_permutation(p, entries@.len()),
            forall|i: int| 0 <= i < n ==> #[trigger] order@[i] < entries@.len(),
            k <= n,
            groups_view(groups@) == zip_groups(s, k as nat).0,
            crate::launcher::strings_view(taken@) == zip_groups(s, k as nat).1,
        decreases n - k,
    {
        let idx = order[k];
        assert(order@[k as int] < entries@.len());
        assert(s[k as int] == (entries@[idx as int].0@, entries@[idx as int].1@));
        let ghost gv = groups_view(groups@);
        if !text_in(&taken, entries[idx].0.as_str()) {
            match zip_name_text(entries[idx].0.as_str()) {
                Some(base) => {
                    let mut parts: Vec<String> = Vec::new();
                    parts.push(owned(entries[idx].0.as_str()));
                    let ghost t_before = crate::launcher::strings_view(taken@);
                    taken.push(owned(entries[idx].0.as_str()));
                    assert(crate::launcher::strings_view(taken@) =~= t_before + seq![s[k as int].0]);
                    assert(crate::launcher::strings_view(parts@) =~= seq![s[k as int].0]);
                    collect_parts(entries, &order, base.as_str(), true, &mut parts, &mut taken);
                    if parts.len() == 1 {
                        collect_parts(entries, &order, base.as_str(), false, &mut parts, &mut taken);
                    }
                    let ghost pv = crate::launcher::strings_view(parts@);
                    proof {
                        let z = parts_from(s, zip_base(s[k as int].0), true, 1, s.len());
                        if z.len() > 0 {
                            assert(pv.len() > 1);
                        }
                        assert(pv =~= seq![s[k as int].0] + more_parts(s, zip_base(s[k as int].0)));
                        assert(crate::launcher::strings_view(taken@) =~= t_before + pv);
                    }
                    groups.push((parts, owned(entries[idx].1.as_str())));
                    assert(groups_view(groups@) =~= gv.push((pv, s[k as int].1)));
                },
                None => {},
            }
        }
        k += 1;
    }
    let ghost first = zip_groups(s, n as nat);
    let mut g2: Vec<(Vec<String>, String)> = Vec::new();
    let mut j: usize = 0;
    assert(groups_view(g2@) =~= Seq::<ArchiveGroup>::empty());
    while j < n
        invariant
            n == order@.len() == s.len() == entries@.len(),
            p == order_ints(order@),
            s == permuted(e, p),
            e == entries_view(entries@),
            is_permutation(p, entries@.len()),
            forall|i: int| 0 <= i < n ==> #[trigger] order@[i] < entries@.len(),
            j <= n,
            first == zip_groups(s, n as nat),
            groups_view(groups@) == first.0,
            groups_view(g2@) == single_groups(s, j as nat, first.1).0,
            crate::launcher::strings_view(taken@) == single_groups(s, j as nat, first.1).1,
        decreases n - j,
    {
        let idx = order[j];
        assert(order@[j as int] < entries@.len());
        assert(s[j as int] == (entries@[idx as int].0@, entries@[idx as int].1@));
        let ghost gv = groups_view(g2@);
        if !text_in(&taken, entries[idx].0.as_str()) {
            let ghost t_before = crate::launcher::strings_view(taken@);
            taken.push(owned(entries[idx].0.as_str()));
            assert(crate::launcher::strings_view(taken@) =~= t_before.push(s[j as int].0));
            let mut one: Vec<String> = Vec::new();
            one.push(owned(entries[idx].0.as_str()));
            assert(crate::launcher::strings_view(one@) =~= seq![s[j as int].0]);
            g2.push((one, owned(entries[idx].1.as_str())));
            assert(groups_view(g2@) =~= gv.push((seq![s[j as int].0], s[j as int].1)));
        }
        j += 1;
    }
    let ghost g1 = groups_view(groups@);
    let ghost g2v = groups_view(g2@);
    for g in it: g2
        invariant
            it.seq() == g2@,
            g2v == groups_view(g2@),
            groups_view(groups@) == g1 + g2v.take(it.index() as int),
    {
        let ghost k = it.index();
        let ghost before = groups_view(groups@);
        groups.push(g);
        assert(g2v[k] == (crate::launcher::strings_view(g.0@), g.1@));
        assert(groups_view(groups@) =~= before.push(g2v[k]));
        assert(g1 + g2v.take(k + 1) =~= (g1 + g2v.take(k)).push(g2v[k]));
    }
    assert(g2v.take(g2v.len() as int) =~= g2v);
    assert(groups_view(groups@) == archive_groups(s));
    groups
}

// ---------------------------------------------------------------------
// Archive listings.
// ---------------------------------------------------------------------

/// A line with surrounding whitespace removed.
pub open spec fn trimmed(l: Seq<char>) -> Seq<char> {
    crate::sign_text::trim_by(l, |c: char| crate::sign_text::is_ws(c))
}

/// Whether a listed name is a file: not empty and not ending in `/`.
pub open spec fn is_file_name(t: Seq<char>) -> bool {
    t.len() > 0 && t.last() != '/'
}

/// The files of a `tar -t` listing: its lines trimmed, without empty ones
/// and directories.
pub open spec fn tar_files(ls: Seq<Seq<char>>) -> Seq<Seq<char>>
    decreases ls.len(),
{
    if ls.len() == 0 {
        seq![]
    } else {
        let prev = tar_files(ls.drop_last());
        let t = trimmed(ls.last());
        if is_file_name(t) {
            prev.push(t)
        } else {
            prev
        }
    }
}

/// The value of decimal digits.
pub open spec fn digits_val(d: Seq<char>) -> nat
    decreases d.len(),
{
    if d.len() == 0 {
        0
    } else {
        digits_val(d.drop_last()) * 10 + ((d.last() as nat) - 48) as nat
    }
}

/// Whether every character is an ASCII digit.
pub open spec fn all_digit_chars(d: Seq<char>) -> bool {
    forall|i: int| 0 <= i < d.len() ==> '0' <= #[trigger] d[i] <= '9'
}

/// Whether `u64::from_str` accepts `t`: an optional `+`, then at least one
/// digit, the value fitting 64 bits.
pub open spec fn is_u64_text(t: Seq<char>) -> bool {
    let d = if t.len() > 0 && t[0] == '+' {
        t.drop_first()
    } else {
        t
    };
    d.len() > 0 && all_digit_chars(d) && digits_val(d) <= u64::MAX
}

/// Words joined with single spaces.
pub open spec fn joined(w: Seq<Seq<char>>) -> Seq<char>
    decreases w.len(),
{
    if w.len() == 0 {
        seq![]
    } else if w.len() == 1 {
        w[0]
    } else {
        joined(w.drop_last()) + seq![' '] + w.last()
    }
}

/// The name an `unzip -l` line lists: where its first word is a size and
/// a date and a time follow, the remaining words joined by spaces.
pub open spec fn unzip_name(l: Seq<char>) -> Option<Seq<char>> {
    let w = crate::launcher::words(l);
    if w.len() >= 1 && is_u64_text(w[0]) && w.len() >= 3 {
        Some(joined(w.skip(3)))
    } else {
        None
    }
}

/// The files of an `unzip -l` listing: the listed names that do not end in
/// `/` and hold no `*`.
pub open spec fn unzip_files(ls: Seq<Seq<char>>) -> Seq<Seq<char>>
    decreases ls.len(),
{
    if ls.len() == 0 {
        seq![]
    } else {
        let prev = unzip_files(ls.drop_last());
        match unzip_name(ls.last()) {
            Some(n) => if !(n.len() > 0 && n.last() == '/') && !n.contains('*') {
                prev.push(n)
            } else {
                prev
            },
            None => prev,
        }
    }
}

proof fn lemma_digits_val_grows(d: Seq<char>, i: int)
    requires
        0 <= i <= d.len(),
        all_digit_chars(d),
    ensures
        digits_val(d) >= digits_val(d.take(i)),
    decreases d.len() - i,
{
    if i < d.len() {
        lemma_digits_val_grows(d, i + 1);
        assert(d.take(i + 1).drop_last() =~= d.take(i));
        assert(d.take(i + 1).last() == d[i]);
    } else {
        assert(d.take(i) =~= d);
    }
}

fn u64_text(t: &str) -> (r: bool)
    ensures
        r == is_u64_text(t@),
{
    let cs = crate::sign_text::chars_of(t);
    let n = cs.len();
    let start: usize = if n > 0 && cs[0] == '+' { 1 } else { 0 };
    let ghost d = if t@.len() > 0 && t@[0] == '+' { t@.drop_first() } else { t@ };
    assert(d =~= cs@.skip(start as int));
    if start >= n {
        return false;
    }
    let mut acc: u64 = 0;
    let mut i: usize = start;
    while i < n
        invariant
            start <= i <= n,
            n == cs@.len(),
            start < n,
            cs@ == t@,
            d == (if t@.len() > 0 && t@[0] == '+' { t@.drop_first() } else { t@ }),
            d == cs@.skip(start as int),
            all_digit_chars(d.take(i - start)),
            acc as nat == digits_val(d.take(i - start)),
        decreases n - i,
    {
        let c = cs[i];
        let ghost k = i - start;
        assert(d[k] == c);
        if c < '0' || c > '9' {
            assert(!all_digit_chars(d));
            return false;
        }
        let v = (c as u32 - 48) as u64;
        proof {
            assert(d.take(k + 1).drop_last() =~= d.take(k));
            assert(d.take(k + 1).last() == c);
            assert(all_digit_chars(d.take(k + 1)));
        }
        if acc > (u64::MAX - v) / 10 {
            proof {
                assert(acc * 10 + v > u64::MAX) by (nonlinear_arith)
                    requires
                        acc > (u64::MAX - v) / 10,
                        v <= 9,
                ;
                if all_digit_chars(d) {
                    lemma_digits_val_grows(d, k + 1);
                }
            }
            return false;
        }
        assert(acc * 10 + v <= u64::MAX) by (nonlinear_arith)
            requires
                acc <= (u64::MAX - v) / 10,
                v <= 9,
        ;
        acc = acc * 10 + v;
        i += 1;
    }
    assert(d.take(n - start) =~= d);
    true
}

fn join_words(w: &Vec<String>, from: usize) -> (r: String)
    requires
        from <= w@.len(),
    ensures
        r@ == joined(crate::launcher::strings_view(w@).skip(from as int)),
{
    let ghost sv = crate::launcher::strings_view(w@);
    let mut out = String::new();
    let mut i: usize = from;
    assert(sv.skip(from as int).take(0) =~= Seq::<Seq<char>>::empty());
    while i < w.len()
        invariant
            from <= i <= w@.len(),
            sv == crate::launcher::strings_view(w@),
            out@ == joined(sv.skip(from as int).take(i - from)),
        decreases w@.len() - i,
    {
        let ghost part = sv.skip(from as int).take(i - from + 1);
        assert(part.drop_last() =~= sv.skip(from as int).take(i - from));
        assert(part.last() == w@[i as int]@);
        if i > from {
            push_char(&mut out, ' ');
        } else {
            assert(part.len() == 1);
        }
        push_text(&mut out, w[i].as_str());
        i += 1;
        proof {
            if i - from > 1 {
                assert(out@ =~= joined(part));
            } else {
                assert(out@ =~= part[0]);
            }
        }
    }
    assert(sv.skip(from as int).take(i - from) =~= sv.skip(from as int));
    out
}

fn has_char(s: &str, x: char) -> (r: bool)
    ensures
        r == s@.contains(x),
{
    for c in it: s.chars()
        invariant
            it.seq() == s@,
            forall|j: int| 0 <= j < it.index() ==> s@[j] != x,
    {
        if c == x {
            assert(s@[it.index() as int] == x);
            return true;
        }
    }
    false
}

fn ends_with_slash(s: &str) -> (r: bool)
    ensures
        r == (s@.len() > 0 && s@.last() == '/'),
{
    let cs = crate::sign_text::chars_of(s);
    cs.len() > 0 && cs[cs.len() - 1] == '/'
}

/// The files of a `tar -t` listing (see `tar_files`).
pub fn tar_listing_files(listing: &str) -> (r: Vec<String>)
    ensures
        crate::launcher::strings_view(r@) == tar_files(crate::launcher::lines(listing@)),
{
    let ls = crate::launcher::log_lines(listing);
    let ghost lv = Seq::new(ls@.len(), |i: int| ls@[i]@);
    let mut out: Vec<String> = Vec::new();
    let mut i: usize = 0;
    assert(lv.take(0) =~= Seq::<Seq<char>>::empty());
    while i < ls.len()
        invariant
            i <= ls@.len(),
            lv == Seq::new(ls@.len(), |i: int| ls@[i]@),
            lv == crate::launcher::lines(listing@),
            crate::launcher::strings_view(out@) == tar_files(lv.take(i as int)),
        decreases ls@.len() - i,
    {
        let t = crate::sign_text::trim_chars(&ls[i], false);
        assert(lv.take(i + 1).drop_last() =~= lv.take(i as int));
        assert(lv.take(i + 1).last() == ls@[i as int]@);
        if !t.as_str().is_empty() && !ends_with_slash(t.as_str()) {
            let ghost before = crate::launcher::strings_view(out@);
            let ghost tv = t@;
            out.push(t);
            assert(crate::launcher::strings_view(out@) =~= before.push(tv));
        }
        i += 1;
    }
    assert(lv.take(i as int) =~= lv);
    out
}

/// The files of an `unzip -l` listing (see `unzip_files`).
pub fn unzip_listing_files(listing: &str) -> (r: Vec<String>)
    ensures
        crate::launcher::strings_view(r@) == unzip_files(crate::launcher::lines(listing@)),
{
    let ls = crate::launcher::log_lines(listing);
    let ghost lv = Seq::new(ls@.len(), |i: int| ls@[i]@);
    let mut out: Vec<String> = Vec::new();
    let mut i: usize = 0;
    assert(lv.take(0) =~= Seq::<Seq<char>>::empty());
    while i < ls.len()
        invariant
            i <= ls@.len(),
            lv == Seq::new(ls@.len(), |i: int| ls@[i]@),
            lv == crate::launcher::lines(listing@),
            crate::launcher::strings_view(out@) == unzip_files(lv.take(i as int)),
        decreases ls@.len() - i,
    {
        let w = crate::launcher::words_of_chars(&ls[i]);
        assert(lv.take(i + 1).drop_last() =~= lv.take(i as int));
        assert(lv.take(i + 1).last() == ls@[i as int]@);
        let ghost wv = crate::launcher::strings_view(w@);
        if w.len() >= 3 && u64_text(w[0].as_str()) {
            let name = join_words(&w, 3);
            if !ends_with_slash(name.as_str()) && !has_char(name.as_str(), '*') {
                let ghost before = crate::launcher::strings_view(out@);
                let ghost nv = name@;
                out.push(name);
                assert(crate::launcher::strings_view(out@) =~= before.push(nv));
            }
        } else {
            proof {
                if w@.len() >= 3 {
                    assert(wv[0] == w@[0]@);
                }
            }
        }
        i += 1;
    }
    assert(lv.take(i as int) =~= lv);
    out
}

// ---------------------------------------------------------------------
// Destinations and installed-file lists.
// ---------------------------------------------------------------------

/// `s` with each occurrence of `pat` replaced by `rep`, left to right, as
/// `str::replace` does for a pattern that is not empty.
pub open spec fn replace_all(s: Seq<char>, pat: Seq<char>, rep: Seq<char>) -> Seq<char>
    decreases s.len(),
{
    if pat.len() == 0 || s.len() < pat.len() {
        s
    } else if s.take(pat.len() as int) == pat {
        rep + replace_all(s.skip(pat.len() as int), pat, rep)
    } else {
        seq![s[0]] + replace_all(s.drop_first(), pat, rep)
    }
}

proof fn lemma_replace_short(s: Seq<char>, pat: Seq<char>, rep: Seq<char>)
    requires
        s.len() < pat.len(),
    ensures
        replace_all(s, pat, rep) == s,
{
}

fn replace_text(s: &str, pat: &str, rep: &str) -> (r: String)
    requires
        pat@.len() > 0,
    ensures
        r@ == replace_all(s@, pat@, rep@),
{
    let cs = crate::sign_text::chars_of(s);
    let ps = crate::sign_text::chars_of(pat);
    let n = cs.len();
    let m = ps.len();
    let ghost c = cs@;
    let mut out = String::new();
    let mut i: usize = 0;
    assert(c.skip(0) =~= c);
    while i < n
        invariant
            n == c.len(),
            c == cs@,
            c == s@,
            m == ps@.len(),
            ps@ == pat@,
            m > 0,
            i <= n,
            replace_all(c, pat@, rep@) == out@ + replace_all(c.skip(i as int), pat@, rep@),
        decreases n - i,
    {
        let mut matched = m <= n - i;
        let mut k: usize = 0;
        while matched && k < m
            invariant
                n == c.len(),
                c == cs@,
                m == ps@.len(),
                i < n,
                k <= m,
                matched ==> i + m <= n,
                matched ==> forall|j: int| 0 <= j < k ==> c[i + j] == ps@[j],
                !matched ==> (i + m > n || exists|j: int| 0 <= j < m && c[i + j] != ps@[j]),
            decreases m - k,
        {
            if cs[i + k] != ps[k] {
                matched = false;
            }
            k += 1;
        }
        let ghost rest = c.skip(i as int);
        if matched {
            assert(rest.take(m as int) =~= pat@);
            push_text(&mut out, rep);
            assert(rest.skip(m as int) =~= c.skip(i + m));
            i += m;
        } else {
            proof {
                if rest.len() < m {
                    lemma_replace_short(rest, pat@, rep@);
                    lemma_replace_short(c.skip(i + 1), pat@, rep@);
                    assert(rest =~= seq![c[i as int]] + c.skip(i + 1));
                } else {
                    let j = choose|j: int| 0 <= j < m && c[i + j] != ps@[j];
                    assert(rest.take(m as int)[j] != pat@[j]);
                    assert(rest.drop_first() =~= c.skip(i + 1));
                }
            }
            push_char(&mut out, cs[i]);
            i += 1;
        }
    }
    proof {
        lemma_replace_short(c.skip(i as int), pat@, rep@);
        assert(c.skip(i as int) =~= Seq::<char>::empty());
    }
    out
}

/// The destination of a group with a placeholder: `{MediaDir}`,
/// `{DLCDir}`, `{GameHDD}` and `{MobDir}` replaced, in that order, by the
/// instance's folders.
pub open spec fn expanded_destination(
    placeholder: Seq<char>,
    media: Seq<char>,
    dlc: Seq<char>,
    game_hdd: Seq<char>,
    mob: Seq<char>,
) -> Seq<char> {
    replace_all(
        replace_all(
            replace_all(replace_all(placeholder, "{MediaDir}"@, media), "{DLCDir}"@, dlc),
            "{GameHDD}"@,
            game_hdd,
        ),
        "{MobDir}"@,
        mob,
    )
}

/// Expands a group's destination placeholder (see `expanded_destination`).
pub fn expand_destination(placeholder: &str, media: &str, dlc: &str, game_hdd: &str, mob: &str) -> (r: String)
    ensures
        r@ == expanded_destination(placeholder@, media@, dlc@, game_hdd@, mob@),
{
    proof {
        reveal_strlit("{MediaDir}");
        reveal_strlit("{DLCDir}");
        reveal_strlit("{GameHDD}");
        reveal_strlit("{MobDir}");
    }
    let a = replace_text(placeholder, "{MediaDir}", media);
    let b = replace_text(a.as_str(), "{DLCDir}", dlc);
    let c = replace_text(b.as_str(), "{GameHDD}", game_hdd);
    replace_text(c.as_str(), "{MobDir}", mob)
}

/// `l` with each of `fs` added, in order, where it is not listed yet.
pub open spec fn add_new(l: Seq<Seq<char>>, fs: Seq<Seq<char>>) -> Seq<Seq<char>>
    decreases fs.len(),
{
    if fs.len() == 0 {
        l
    } else {
        let p = add_new(l, fs.drop_last());
        if p.contains(fs.last()) {
            p
        } else {
            p.push(fs.last())
        }
    }
}

/// Records extracted files in a list, each once (see `add_new`).
pub fn record_files(list: &mut Vec<String>, files: &[String])
    ensures
        crate::launcher::strings_view(final(list)@) == add_new(
            crate::launcher::strings_view(old(list)@),
            crate::launcher::strings_view(files@),
        ),
{
    let ghost l0 = crate::launcher::strings_view(list@);
    let ghost fv = crate::launcher::strings_view(files@);
    let mut i: usize = 0;
    assert(fv.take(0) =~= Seq::<Seq<char>>::empty());
    while i < files.len()
        invariant
            i <= files@.len(),
            fv == crate::launcher::strings_view(files@),
            crate::launcher::strings_view(list@) == add_new(l0, fv.take(i as int)),
        decreases files@.len() - i,
    {
        assert(fv.take(i + 1).drop_last() =~= fv.take(i as int));
        assert(fv.take(i + 1).last() == files@[i as int]@);
        if !text_in(list, files[i].as_str()) {
            let ghost before = crate::launcher::strings_view(list@);
            list.push(owned(files[i].as_str()));
            assert(crate::launcher::strings_view(list@) =~= before.push(files@[i as int]@));
        }
        i += 1;
    }
    assert(fv.take(i as int) =~= fv);
}

/// The files of `l` that are not in `removed`, in order.
pub open spec fn without_files(l: Seq<Seq<char>>, removed: Seq<Seq<char>>) -> Seq<Seq<char>>
    decreases l.len(),
{
    if l.len() == 0 {
        seq![]
    } else {
        let p = without_files(l.drop_last(), removed);
        if removed.contains(l.last()) {
            p
        } else {
            p.push(l.last())
        }
    }
}

/// The installed files left after a package's files are removed (see
/// `without_files`).
pub fn remaining_files(files: Vec<String>, removed: &Vec<String>) -> (r: Vec<String>)
    ensures
        crate::launcher::strings_view(r@) == without_files(
            crate::launcher::strings_view(files@),
            crate::launcher::strings_view(removed@),
        ),
{
    let ghost fv = crate::launcher::strings_view(files@);
    let ghost rv = crate::launcher::strings_view(removed@);
    let mut out: Vec<String> = Vec::new();
    assert(fv.take(0) =~= Seq::<Seq<char>>::empty());
    for f in it: files
        invariant
            it.seq() == files@,
            fv == crate::launcher::strings_view(files@),
            rv == crate::launcher::strings_view(removed@),
            crate::launcher::strings_view(out@) == without_files(fv.take(it.index() as int), rv),
    {
        let ghost k = it.index();
        assert(fv.take(k + 1).drop_last() =~= fv.take(k as int));
        assert(fv.take(k + 1).last() == f@);
        if !text_in(removed, f.as_str()) {
            let ghost before = crate::launcher::strings_view(out@);
            let ghost v = f@;
            out.push(f);
            assert(crate::launcher::strings_view(out@) =~= before.push(v));
        }
    }
    assert(fv.take(fv.len() as int) =~= fv);
    out
}

proof fn lemma_sorted_unique(s1: Seq<ArchiveEntry>, s2: Seq<ArchiveEntry>)
    requires
        sorted_by_name(s1),
        sorted_by_name(s2),
        s1.len() == s2.len(),
        forall|i: int| 0 <= i < s1.len() ==> s2.contains(#[trigger] s1[i]),
        forall|i: int| 0 <= i < s2.len() ==> s1.contains(#[trigger] s2[i]),
    ensures
        s1 == s2,
    decreases s1.len(),
{
    if s1.len() > 0 {
        assert(s1.contains(s2[0]));
        assert(s2.contains(s1[0]));
        let a = choose|a: int| 0 <= a < s1.len() && s1[a] == s2[0];
        let b = choose|b: int| 0 <= b < s2.len() && s2[b] == s1[0];
        lemma_names_order(s1[0].0, s2[0].0);
        if a > 0 {
            assert(name_lt(s1[0].0, s1[a].0));
            if b > 0 {
                assert(name_lt(s2[0].0, s2[b].0));
            }
        }
        assert(a == 0);
        let t1 = s1.drop_first();
        let t2 = s2.drop_first();
        assert forall|i: int| 0 <= i < t1.len() implies t2.contains(#[trigger] t1[i]) by {
            assert(t1[i] == s1[i + 1]);
            assert(s2.contains(s1[i + 1]));
            let c = choose|c: int| 0 <= c < s2.len() && s2[c] == s1[i + 1];
            if c == 0 {
                assert(name_lt(s1[0].0, s1[i + 1].0));
                lemma_names_order(s1[0].0, s1[0].0);
            }
            assert(t2[c - 1] == t1[i]);
        }
        assert forall|i: int| 0 <= i < t2.len() implies t1.contains(#[trigger] t2[i]) by {
            assert(t2[i] == s2[i + 1]);
            assert(s1.contains(s2[i + 1]));
            let c = choose|c: int| 0 <= c < s1.len() && s1[c] == s2[i + 1];
            if c == 0 {
                assert(name_lt(s2[0].0, s2[i + 1].0));
                lemma_names_order(s2[0].0, s2[0].0);
            }
            assert(t1[c - 1] == t2[i]);
        }
        assert forall|x: int, y: int| 0 <= x < y < t1.len() implies name_lt(#[trigger] t1[x].0, #[trigger] t1[y].0) by {
            assert(t1[x] == s1[x + 1] && t1[y] == s1[y + 1]);
        }
        assert forall|x: int, y: int| 0 <= x < y < t2.len() implies name_lt(#[trigger] t2[x].0, #[trigger] t2[y].0) by {
            assert(t2[x] == s2[x + 1] && t2[y] == s2[y + 1]);
        }
        lemma_sorted_unique(t1, t2);
        assert(s1 =~= s2) by {
            assert forall|i: int| 0 <= i < s1.len() implies s1[i] == s2[i] by {
                if i > 0 {
                    assert(s1[i] == t1[i - 1] && s2[i] == t2[i - 1]);
                }
            }
        }
    }
}

proof fn lemma_permuted_has(e: Seq<ArchiveEntry>, p: Seq<int>, x: ArchiveEntry)
    requires
        is_permutation(p, e.len()),
        e.contains(x),
    ensures
        permuted(e, p).contains(x),
{
    let j = choose|j: int| 0 <= j < e.len() && e[j] == x;
    assert(lists_index(p, j));
    let k = choose|k: int| 0 <= k < p.len() && p[k] == j;
    assert(permuted(e, p)[k] == x);
}

/// The groups of a package's archives depend only on the archives, not on
/// the order they are listed in: two listings of the same archives, each
/// visited in name order, give the same groups.
pub proof fn lemma_groups_order_free(e1: Seq<ArchiveEntry>, e2: Seq<ArchiveEntry>, p1: Seq<int>, p2: Seq<int>)
    requires
        e1.len() == e2.len(),
        forall|i: int| 0 <= i < e1.len() ==> e2.contains(#[trigger] e1[i]),
        forall|i: int| 0 <= i < e2.len() ==> e1.contains(#[trigger] e2[i]),
        is_permutation(p1, e1.len()),
        is_permutation(p2, e2.len()),
        sorted_by_name(permuted(e1, p1)),
        sorted_by_name(permuted(e2, p2)),
    ensures
        archive_groups(permuted(e1, p1)) == archive_groups(permuted(e2, p2)),
{
    let s1 = permuted(e1, p1);
    let s2 = permuted(e2, p2);
    assert forall|i: int| 0 <= i < s1.len() implies s2.contains(#[trigger] s1[i]) by {
        assert(s1[i] == e1[p1[i]]);
        assert(e2.contains(e1[p1[i]]));
        lemma_permuted_has(e2, p2, e1[p1[i]]);
    }
    assert forall|i: int| 0 <= i < s2.len() implies s1.contains(#[trigger] s2[i]) by {
        assert(s2[i] == e2[p2[i]]);
        assert(e1.contains(e2[p2[i]]));
        lemma_permuted_has(e1, p1, e2[p2[i]]);
    }
    lemma_sorted_unique(s1, s2);
}

} // verus!
