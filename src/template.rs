//! Substitution of `{{field}}` placeholders with a record's values.
use vstd::prelude::*;

verus! {

/// A record's fields as a map from name to value. Where a name occurs twice,
/// the later field counts.
pub open spec fn fields_map(fields: Seq<(Seq<char>, Seq<char>)>) -> Map<Seq<char>, Seq<char>>
    decreases fields.len(),
{
    if fields.len() == 0 {
        Map::empty()
    } else {
        fields_map(fields.drop_last()).insert(fields.last().0, fields.last().1)
    }
}

/// The fields of a record as name/value pairs of character sequences.
pub open spec fn fields_view(record: Seq<(String, String)>) -> Seq<(Seq<char>, Seq<char>)> {
    record.map_values(|p: (String, String)| (p.0@, p.1@))
}

/// A record as the mapping it stands for.
pub open spec fn record_view(record: Seq<(String, String)>) -> Map<Seq<char>, Seq<char>> {
    fields_map(fields_view(record))
}

/// No two fields share a name.
pub open spec fn keys_unique(fields: Seq<(Seq<char>, Seq<char>)>) -> bool {
    forall|i: int, j: int| 0 <= i < j < fields.len() ==> #[trigger] fields[i].0 != #[trigger] fields[j].0
}

/// The first `j >= k` where `}}` starts in `s`, or -1 where there is none.
pub open spec fn close_from(s: Seq<char>, k: int) -> int
    decreases s.len() - k,
{
    if k < 0 || k + 1 >= s.len() {
        -1
    } else if s[k] == '}' && s[k + 1] == '}' {
        k
    } else {
        close_from(s, k + 1)
    }
}

/// `s` with each placeholder `{{name}}` whose name the record holds replaced
/// by the name's value, scanning once from the left; the name runs to the
/// first `}}`. Every other character, unknown placeholders included, stays.
pub open spec fn resolve(s: Seq<char>, record: Map<Seq<char>, Seq<char>>) -> Seq<char>
    decreases s.len(),
{
    if s.len() == 0 {
        s
    } else if s.len() >= 2 && s[0] == '{' && s[1] == '{' && close_from(s, 2) >= 2 && close_from(s, 2) + 1 < s.len()
        && record.contains_key(
        s.subrange(2, close_from(s, 2)),
    ) {
        record[s.subrange(2, close_from(s, 2))] + resolve(s.skip(close_from(s, 2) + 2), record)
    } else {
        seq![s[0]] + resolve(s.skip(1), record)
    }
}

proof fn lemma_close_range(s: Seq<char>, k: int)
    requires
        k >= 0,
    ensures
        close_from(s, k) == -1 || (k <= close_from(s, k) && close_from(s, k) + 1 < s.len()),
    decreases s.len() - k,
{
    if k + 1 < s.len() && !(s[k] == '}' && s[k + 1] == '}') {
        lemma_close_range(s, k + 1);
    }
}

proof fn lemma_close_skip(s: Seq<char>, i: int, k: int)
    requires
        0 <= i <= s.len(),
        k >= 0,
    ensures
        close_from(s.skip(i), k) == (if close_from(s, i + k) < 0 { -1 } else { close_from(s, i + k) - i }),
    decreases s.len() - i - k,
{
    let r = s.skip(i);
    if k + 1 < r.len() {
        assert(r[k] == s[i + k] && r[k + 1] == s[i + k + 1]);
        if !(r[k] == '}' && r[k + 1] == '}') {
            lemma_close_skip(s, i, k + 1);
        }
    }
}

/// The characters of `s`.
fn chars_of(s: &str) -> (r: Vec<char>)
    ensures
        r@ == s@,
{
    let n = s.unicode_len();
    let mut out: Vec<char> = Vec::new();
    let mut i: usize = 0;
    while i < n
        invariant
            n == s@.len(),
            i <= n,
            out@ == s@.take(i as int),
        decreases n - i,
    {
        out.push(s.get_char(i));
        i += 1;
        proof {
            assert(out@ =~= s@.take(i as int));
        }
    }
    proof {
        assert(out@ =~= s@);
    }
    out
}

/// Where the first `}}` at or after `k` starts.
fn find_close(s: &Vec<char>, k: usize) -> (r: Option<usize>)
    ensures
        r is None <==> close_from(s@, k as int) < 0,
        r matches Some(j) ==> j == close_from(s@, k as int),
{
    let n = s.len();
    let mut j: usize = k;
    while j < n && n - j > 1
        invariant
            n == s@.len(),
            j >= k,
            close_from(s@, j as int) == close_from(s@, k as int),
        decreases n - j,
    {
        if s[j] == '}' && s[j + 1] == '}' {
            return Some(j);
        }
        j += 1;
    }
    None
}

/// Whether `s[from..to]` is `key`.
fn key_equals(s: &Vec<char>, from: usize, to: usize, key: &str) -> (r: bool)
    requires
        from <= to <= s@.len(),
    ensures
        r == (s@.subrange(from as int, to as int) == key@),
{
    let n = key.unicode_len();
    if n != to - from {
        return false;
    }
    let mut i: usize = 0;
    while i < n
        invariant
            n == key@.len(),
            n == to - from,
            to <= s@.len(),
            i <= n,
            forall|m: int| 0 <= m < i ==> s@[from + m] == key@[m],
        decreases n - i,
    {
        if s[from + i] != key.get_char(i) {
            proof {
                assert(s@.subrange(from as int, to as int)[i as int] == s@[from + i]);
            }
            return false;
        }
        i += 1;
    }
    proof {
        assert(s@.subrange(from as int, to as int) =~= key@);
    }
    true
}

/// The index of the field that counts for the name `s[from..to]`, if any.
fn lookup(record: &Vec<(String, String)>, s: &Vec<char>, from: usize, to: usize) -> (r: Option<usize>)
    requires
        from <= to <= s@.len(),
    ensures
        ({
            let name = s@.subrange(from as int, to as int);
            let map = record_view(record@);
            &&& (r is None <==> !map.contains_key(name))
            &&& (r matches Some(m) ==> m < record@.len() && map[name] == record@[m as int].1@)
        }),
{
    let ghost name = s@.subrange(from as int, to as int);
    let ghost f = fields_view(record@);
    let mut found: Option<usize> = None;
    let mut i: usize = 0;
    while i < record.len()
        invariant
            i <= record@.len(),
            f == fields_view(record@),
            from <= to <= s@.len(),
            name == s@.subrange(from as int, to as int),
            match found {
                None => !fields_map(f.take(i as int)).contains_key(name),
                Some(m) => m < i && fields_map(f.take(i as int)).contains_key(name) && fields_map(f.take(i as int))[name]
                    == record@[m as int].1@,
            },
        decreases record@.len() - i,
    {
        proof {
            assert(f.take(i + 1).drop_last() =~= f.take(i as int));
            assert(f.take(i + 1).last() == (record@[i as int].0@, record@[i as int].1@));
        }
        if key_equals(s, from, to, record[i].0.as_str()) {
            found = Some(i);
        }
        i += 1;
    }
    proof {
        assert(f.take(i as int) =~= f);
    }
    found
}

/// Replaces each placeholder `{{name}}` whose name is a field of `record`
/// with the field's value, in one pass from the left, so that a value is never
/// itself resolved. Placeholders whose field is absent stay as they are.
pub fn resolve_template(template: &str, record: &Vec<(String, String)>) -> (r: String)
    ensures
        r@ == resolve(template@, record_view(record@)),
{
    let sc = chars_of(template);
    let ghost s = template@;
    let ghost map = record_view(record@);
    let n = sc.len();
    let mut out = String::new();
    let mut i: usize = 0;
    proof {
        assert(s.skip(0) =~= s);
        assert(out@ + resolve(s, map) =~= resolve(s, map));
    }
    while i < n
        invariant
            sc@ == s,
            s == template@,
            map == record_view(record@),
            n == s.len(),
            i <= n,
            out@ + resolve(s.skip(i as int), map) == resolve(s, map),
        decreases n - i,
    {
        let ghost rest = s.skip(i as int);
        let mut done = false;
        if i + 1 < n && sc[i] == '{' && sc[i + 1] == '{' {
            proof {
                lemma_close_skip(s, i as int, 2);
                lemma_close_range(s, i + 2);
            }
            if let Some(j) = find_close(&sc, i + 2) {
                if let Some(m) = lookup(record, &sc, i + 2, j) {
                    proof {
                        assert(rest.subrange(2, j - i) =~= s.subrange(i + 2, j as int));
                        assert(rest.skip(j - i + 2) =~= s.skip(j + 2));
                    }
                    out.append(record[m].1.as_str());
                    i = j + 2;
                    done = true;
                } else {
                    proof {
                        assert(rest.subrange(2, j - i) =~= s.subrange(i + 2, j as int));
                    }
                }
            }
        }
        if !done {
            proof {
                assert(rest.skip(1) =~= s.skip(i + 1));
                if i + 1 < n && rest[0] == '{' && rest[1] == '{' && close_from(rest, 2) >= 2 && close_from(rest, 2) + 1 < rest.len() {
                    assert(rest.subrange(2, close_from(rest, 2)) =~= s.subrange(i + 2, close_from(s, i + 2)));
                }
            }
            out.append(template.substring_char(i, i + 1));
            i += 1;
        }
        proof {
            assert(out@ + resolve(s.skip(i as int), map) =~= resolve(s, map));
        }
    }
    proof {
        assert(s.skip(i as int) =~= Seq::<char>::empty());
        assert(out@ + Seq::<char>::empty() =~= out@);
    }
    out
}

/// What the map of a record with distinct names holds: exactly its fields.
pub proof fn lemma_fields_map(fields: Seq<(Seq<char>, Seq<char>)>)
    requires
        keys_unique(fields),
    ensures
        forall|k: Seq<char>| #[trigger] fields_map(fields).contains_key(k) <==> exists|i: int| 0 <= i < fields.len() && fields[i].0 == k,
        forall|i: int| 0 <= i < fields.len() ==> #[trigger] fields_map(fields)[fields[i].0] == fields[i].1,
    decreases fields.len(),
{
    if fields.len() > 0 {
        let init = fields.drop_last();
        assert(keys_unique(init)) by {
            assert forall|i: int, j: int| 0 <= i < j < init.len() implies #[trigger] init[i].0 != #[trigger] init[j].0 by {
                assert(init[i] == fields[i] && init[j] == fields[j]);
            }
        }
        lemma_fields_map(init);
        let last = fields.len() - 1;
        assert forall|k: Seq<char>| #[trigger] fields_map(fields).contains_key(k) <==> exists|i: int| 0 <= i < fields.len() && fields[i].0 == k by {
            if fields_map(fields).contains_key(k) && k != fields[last].0 {
                assert(fields_map(init).contains_key(k));
                let i = choose|i: int| 0 <= i < init.len() && init[i].0 == k;
                assert(fields[i] == init[i]);
            }
            if fields_map(fields).contains_key(k) && k == fields[last].0 {
                assert(fields[last].0 == k);
            }
            if exists|i: int| 0 <= i < fields.len() && fields[i].0 == k {
                let i = choose|i: int| 0 <= i < fields.len() && fields[i].0 == k;
                if i < last {
                    assert(init[i] == fields[i]);
                    assert(fields_map(init).contains_key(init[i].0));
                }
            }
        }
        assert forall|i: int| 0 <= i < fields.len() implies #[trigger] fields_map(fields)[fields[i].0] == fields[i].1 by {
            if i < last {
                assert(init[i] == fields[i]);
                assert(fields[i].0 != fields[last].0);
                assert(fields_map(init)[init[i].0] == init[i].1);
            }
        }
    }
}

/// The order of a record's fields does not matter: two records with distinct
/// names and the same fields stand for the same mapping, so every placeholder
/// resolves the same way in both.
pub proof fn lemma_field_order_irrelevant(a: Seq<(Seq<char>, Seq<char>)>, b: Seq<(Seq<char>, Seq<char>)>, template: Seq<char>)
    requires
        keys_unique(a),
        keys_unique(b),
        a.to_set() == b.to_set(),
    ensures
        fields_map(a) == fields_map(b),
        resolve(template, fields_map(a)) == resolve(template, fields_map(b)),
{
    lemma_fields_map(a);
    lemma_fields_map(b);
    assert forall|k: Seq<char>| #[trigger] fields_map(a).contains_key(k) implies fields_map(b).contains_key(k) && fields_map(a)[k] == fields_map(b)[k] by {
        let i = choose|i: int| 0 <= i < a.len() && a[i].0 == k;
        assert(a.to_set().contains(a[i]));
        assert(b.to_set().contains(a[i]));
        let j = choose|j: int| 0 <= j < b.len() && b[j] == a[i];
        assert(fields_map(b)[b[j].0] == b[j].1);
    }
    assert forall|k: Seq<char>| #[trigger] fields_map(b).contains_key(k) implies fields_map(a).contains_key(k) by {
        let j = choose|j: int| 0 <= j < b.len() && b[j].0 == k;
        assert(b.to_set().contains(b[j]));
        assert(a.to_set().contains(b[j]));
        let i = choose|i: int| 0 <= i < a.len() && a[i] == b[j];
    }
    assert(fields_map(a) =~= fields_map(b));
}

} // verus!
