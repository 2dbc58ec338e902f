//! The alias-file grammar: one managed-by header line, then one line per
//! alias of the exact shape `alias <name>="<command>"`, with a trailing
//! newline. Parsing trims each line, keeps only lines of that shape, and
//! silently skips everything else.

use vstd::prelude::*;
use vstd::string::*;

use crate::text::{
    find_char, is_space_spec, lemma_find_char_is, lemma_trim_noop, no_char, string_from_range,
    to_chars, trim, trim_range,
};
use crate::{Alias, AliasView};

verus! {

/// The fixed first line of every serialized alias file.
pub open spec fn header_text() -> Seq<char> {
    "# This file is managed by Alias-Assistant. Manual edits might be overwritten."@
}

/// The keyword that opens every alias line.
pub open spec fn alias_prefix() -> Seq<char> {
    "alias "@
}

/// The views of a sequence of aliases, in order.
pub open spec fn views_of(v: Seq<Alias>) -> Seq<AliasView> {
    v.map_values(|a: Alias| a@)
}

/// One layer of surrounding double quotes removed: a leading `"` if present,
/// then a trailing `"` if present.
pub open spec fn strip_quotes(s: Seq<char>) -> Seq<char> {
    let s1 = if s.len() > 0 && s[0] == '"' {
        s.drop_first()
    } else {
        s
    };
    if s1.len() > 0 && s1[s1.len() - 1] == '"' {
        s1.drop_last()
    } else {
        s1
    }
}

/// What one line contributes: an alias if, after trimming, it starts with
/// `alias ` and the remainder has an `=`; nothing otherwise.
pub open spec fn spec_parse_line(line: Seq<char>) -> Option<AliasView> {
    let t = trim(line);
    if t.len() >= 6 && t.subrange(0, 6) == alias_prefix() {
        let rest = t.subrange(6, t.len() as int);
        let k = find_char(rest, '=') as int;
        if k < rest.len() {
            Some(
                AliasView {
                    name: rest.subrange(0, k),
                    command: strip_quotes(rest.subrange(k + 1, rest.len() as int)),
                },
            )
        } else {
            None
        }
    } else {
        None
    }
}

/// The segments of `s` between newline characters, in order. A trailing
/// newline contributes a final empty segment, which parses to nothing.
pub open spec fn split_lines(s: Seq<char>) -> Seq<Seq<char>>
    decreases s.len(),
{
    let k = find_char(s, '\n') as int;
    if k >= s.len() {
        seq![s]
    } else {
        seq![s.subrange(0, k)] + split_lines(s.subrange(k + 1, s.len() as int))
    }
}

/// The aliases contributed by a sequence of lines, in order.
pub open spec fn parse_lines(lines: Seq<Seq<char>>) -> Seq<AliasView>
    decreases lines.len(),
{
    if lines.len() == 0 {
        Seq::empty()
    } else {
        match spec_parse_line(lines[0]) {
            Some(a) => seq![a] + parse_lines(lines.drop_first()),
            None => parse_lines(lines.drop_first()),
        }
    }
}

/// The collection that a text parses to: every well-shaped line's alias, in
/// line order. Parsing never fails; malformed lines are dropped.
pub open spec fn spec_parse(s: Seq<char>) -> Seq<AliasView> {
    parse_lines(split_lines(s))
}

/// The line serialized for one alias.
pub open spec fn record_line(a: AliasView) -> Seq<char> {
    alias_prefix() + a.name + "=\""@ + a.command + "\""@
}

/// The serialized lines of a collection, each followed by a newline.
pub open spec fn records_text(c: Seq<AliasView>) -> Seq<char>
    decreases c.len(),
{
    if c.len() == 0 {
        Seq::empty()
    } else {
        record_line(c[0]) + "\n"@ + records_text(c.drop_first())
    }
}

/// The full serialized text of a collection: header line, one line per
/// record in collection order, trailing newline.
pub open spec fn spec_serialize(c: Seq<AliasView>) -> Seq<char> {
    header_text() + "\n"@ + records_text(c)
}

/// The view of an optional alias.
pub open spec fn view_opt(r: Option<Alias>) -> Option<AliasView> {
    match r {
        Some(a) => Some(a@),
        None => None,
    }
}

/// What one parsed line contributes to the collection.
pub open spec fn line_contrib(l: Seq<char>) -> Seq<AliasView> {
    match spec_parse_line(l) {
        Some(a) => seq![a],
        None => Seq::empty(),
    }
}

/// Parse the one line held in `v[from..to]`.
#[verifier::rlimit(60)]
fn parse_line_range(v: &Vec<char>, from: usize, to: usize) -> (r: Option<Alias>)
    requires
        from <= to <= v@.len(),
    ensures
        view_opt(r) == spec_parse_line(v@.subrange(from as int, to as int)),
{
    let ghost line = v@.subrange(from as int, to as int);
    let (lo, hi) = trim_range(v, from, to);
    let ghost t = trim(line);
    if hi - lo >= 6 && v[lo] == 'a' && v[lo + 1] == 'l' && v[lo + 2] == 'i' && v[lo + 3] == 'a'
        && v[lo + 4] == 's' && v[lo + 5] == ' ' {
        proof {
            reveal_strlit("alias ");
            assert forall|i: int| 0 <= i < 6 implies t.subrange(0, 6)[i] == alias_prefix()[i] by {
                assert(t.subrange(0, 6)[i] == v@[lo + i]);
            }
            assert(t.subrange(0, 6) =~= alias_prefix());
        }
        let ghost rest = t.subrange(6, t.len() as int);
        let mut k = lo + 6;
        while k < hi && v[k] != '='
            invariant
                lo + 6 <= k <= hi <= v@.len(),
                forall|i: int| lo + 6 <= i < k ==> v@[i] != '=',
            decreases hi - k,
        {
            k += 1;
        }
        proof {
            assert(rest =~= v@.subrange(lo as int + 6, hi as int));
            assert forall|i: int| 0 <= i < k - lo - 6 implies rest[i] != '=' by {
                assert(rest[i] == v@[lo + 6 + i]);
            }
            if k < hi {
                assert(rest[k - lo - 6] == v@[k as int]);
            }
            lemma_find_char_is(rest, '=', k as int - lo - 6);
        }
        if k == hi {
            return None;
        }
        let name = string_from_range(v, lo + 6, k);
        let ghost raw = rest.subrange(k - lo - 6 + 1, rest.len() as int);
        proof {
            assert(raw =~= v@.subrange(k as int + 1, hi as int));
        }
        let ghost s1 = if raw.len() > 0 && raw[0] == '"' {
            raw.drop_first()
        } else {
            raw
        };
        let ghost s2 = if s1.len() > 0 && s1[s1.len() - 1] == '"' {
            s1.drop_last()
        } else {
            s1
        };
        let mut cl = k + 1;
        let mut cr = hi;
        proof {
            if raw.len() > 0 {
                assert(raw[0] == v@[k as int + 1]);
            }
        }
        if cl < cr && v[cl] == '"' {
            cl += 1;
        }
        proof {
            assert(s1 =~= v@.subrange(cl as int, hi as int));
            if s1.len() > 0 {
                assert(s1[s1.len() - 1] == v@[hi as int - 1]);
            }
        }
        if cl < cr && v[cr - 1] == '"' {
            cr -= 1;
        }
        proof {
            assert(s2 =~= v@.subrange(cl as int, cr as int));
        }
        let command = string_from_range(v, cl, cr);
        proof {
            assert(name@ =~= rest.subrange(0, k as int - lo - 6));
            assert(command@ == strip_quotes(raw));
        }
        Some(Alias { name, command })
    } else {
        proof {
            if t.len() >= 6 && t.subrange(0, 6) == alias_prefix() {
                reveal_strlit("alias ");
                assert(v@[lo as int] == t[0]) by {
                    assert(t[0] == v@[lo + 0]);
                }
                assert(t[0] == alias_prefix()[0]) by {
                    assert(t.subrange(0, 6)[0] == t[0]);
                }
                assert(t[1] == alias_prefix()[1]) by {
                    assert(t.subrange(0, 6)[1] == t[1]);
                }
                assert(t[2] == alias_prefix()[2]) by {
                    assert(t.subrange(0, 6)[2] == t[2]);
                }
                assert(t[3] == alias_prefix()[3]) by {
                    assert(t.subrange(0, 6)[3] == t[3]);
                }
                assert(t[4] == alias_prefix()[4]) by {
                    assert(t.subrange(0, 6)[4] == t[4]);
                }
                assert(t[5] == alias_prefix()[5]) by {
                    assert(t.subrange(0, 6)[5] == t[5]);
                }
                assert(v@[lo + 1] == t[1] && v@[lo + 2] == t[2] && v@[lo + 3] == t[3] && v@[lo + 4]
                    == t[4] && v@[lo + 5] == t[5]);
                assert(false);
            }
        }
        None
    }
}

/// Parse a whole text: every line that, after trimming, has the shape
/// `alias <name>="<command>"` contributes one alias, in line order; all
/// other lines are silently skipped. Parsing never fails.
pub fn parse_aliases_from_content(content: &str) -> (r: Vec<Alias>)
    ensures
        views_of(r@) == spec_parse(content@),
{
    let chars = to_chars(content);
    let n = chars.len();
    let mut out: Vec<Alias> = Vec::new();
    let mut start: usize = 0;
    proof {
        assert(views_of(out@) =~= Seq::<AliasView>::empty());
        assert(chars@.subrange(0, n as int) =~= content@);
    }
    loop
        invariant_except_break
            spec_parse(content@) == views_of(out@) + parse_lines(
                split_lines(chars@.subrange(start as int, n as int)),
            ),
        invariant
            start <= n,
            n == chars@.len(),
            chars@ == content@,
        ensures
            views_of(out@) == spec_parse(content@),
        decreases n - start,
    {
        let ghost rem = chars@.subrange(start as int, n as int);
        let mut j = start;
        while j < n && chars[j] != '\n'
            invariant
                start <= j <= n,
                n == chars@.len(),
                forall|i: int| start <= i < j ==> chars@[i] != '\n',
            decreases n - j,
        {
            j += 1;
        }
        proof {
            assert forall|i: int| 0 <= i < j - start implies rem[i] != '\n' by {
                assert(rem[i] == chars@[start + i]);
            }
            if j < n {
                assert(rem[j - start] == chars@[j as int]);
            }
            lemma_find_char_is(rem, '\n', j as int - start);
        }
        let ghost l = rem.subrange(0, j as int - start);
        let ghost tail_lines = if j < n {
            split_lines(chars@.subrange(j as int + 1, n as int))
        } else {
            Seq::<Seq<char>>::empty()
        };
        proof {
            if j < n {
                let rem2 = rem.subrange(j as int - start + 1, rem.len() as int);
                assert(rem2 =~= chars@.subrange(j as int + 1, n as int));
                assert(split_lines(rem) == seq![l] + tail_lines);
                assert((seq![l] + tail_lines)[0] == l);
                assert((seq![l] + tail_lines).drop_first() =~= tail_lines);
            } else {
                assert(l =~= rem);
                assert(split_lines(rem) == seq![rem]);
                assert(seq![rem][0] == rem);
                assert(seq![rem].drop_first() =~= Seq::<Seq<char>>::empty());
            }
            assert(parse_lines(split_lines(rem)) =~= line_contrib(l) + parse_lines(tail_lines));
        }
        proof {
            assert(chars@.subrange(start as int, j as int) =~= l);
        }
        let parsed = parse_line_range(&chars, start, j);
        match parsed {
            Some(a) => {
                let ghost out_old = out@;
                out.push(a);
                proof {
                    assert(views_of(out@) =~= views_of(out_old).push(a@));
                    assert(line_contrib(l) == seq![a@]);
                    assert(views_of(out@) + parse_lines(tail_lines) =~= views_of(out_old)
                        + line_contrib(l) + parse_lines(tail_lines));
                }
            },
            None => {
                proof {
                    assert(line_contrib(l) =~= Seq::<AliasView>::empty());
                    assert(views_of(out@) + parse_lines(tail_lines) =~= views_of(out@)
                        + line_contrib(l) + parse_lines(tail_lines));
                }
            },
        }
        if j < n {
            start = j + 1;
        } else {
            proof {
                assert(parse_lines(tail_lines) =~= Seq::<AliasView>::empty());
                assert(views_of(out@) =~= views_of(out@) + parse_lines(tail_lines));
            }
            break ;
        }
    }
    out
}

proof fn lemma_records_text_push(c: Seq<AliasView>, a: AliasView)
    ensures
        records_text(c.push(a)) == records_text(c) + record_line(a) + "\n"@,
    decreases c.len(),
{
    if c.len() == 0 {
        assert(c.push(a)[0] == a);
        assert(c.push(a).drop_first() =~= Seq::<AliasView>::empty());
        assert(records_text(Seq::<AliasView>::empty()) =~= Seq::<char>::empty());
        assert(records_text(c.push(a)) == record_line(a) + "\n"@ + records_text(
            c.push(a).drop_first(),
        ));
        assert(records_text(c.push(a)) =~= records_text(c) + record_line(a) + "\n"@);
    } else {
        assert(c.push(a)[0] == c[0]);
        assert(c.push(a).drop_first() =~= c.drop_first().push(a));
        lemma_records_text_push(c.drop_first(), a);
        assert(records_text(c.push(a)) == record_line(c[0]) + "\n"@ + records_text(
            c.drop_first().push(a),
        ));
        assert(records_text(c.push(a)) =~= records_text(c) + record_line(a) + "\n"@);
    }
}

/// Serialize a collection: the fixed header line, then `alias <name>="<command>"`
/// for each record in order, then a trailing newline.
pub fn serialize_aliases(aliases: &Vec<Alias>) -> (r: String)
    ensures
        r@ == spec_serialize(views_of(aliases@)),
{
    let ghost views = views_of(aliases@);
    let mut s = String::from_str(
        "# This file is managed by Alias-Assistant. Manual edits might be overwritten.",
    );
    s.append("\n");
    let mut i: usize = 0;
    proof {
        assert(views.subrange(0, 0) =~= Seq::<AliasView>::empty());
        assert(s@ =~= header_text() + "\n"@ + records_text(views.subrange(0, 0)));
    }
    while i < aliases.len()
        invariant
            i <= aliases.len(),
            views == views_of(aliases@),
            views.len() == aliases@.len(),
            s@ == header_text() + "\n"@ + records_text(views.subrange(0, i as int)),
        decreases aliases.len() - i,
    {
        s.append("alias ");
        s.append(aliases[i].name.as_str());
        s.append("=\"");
        s.append(aliases[i].command.as_str());
        s.append("\"");
        s.append("\n");
        proof {
            assert(views[i as int] == aliases@[i as int]@);
            lemma_records_text_push(views.subrange(0, i as int), views[i as int]);
            assert(views.subrange(0, i as int).push(views[i as int]) =~= views.subrange(
                0,
                i as int + 1,
            ));
            assert(s@ =~= header_text() + "\n"@ + records_text(views.subrange(0, i as int + 1)));
        }
        i += 1;
    }
    proof {
        assert(views.subrange(0, aliases@.len() as int) =~= views);
    }
    s
}

/// A name that serialization can restore: nothing before the first `=` of a
/// line is taken as part of a name, and a name cannot span lines.
pub open spec fn name_ok(name: Seq<char>) -> bool {
    no_char(name, '=') && no_char(name, '\n')
}

/// A command that serialization can restore: free of the double-quote
/// character (the known quoting limitation) and of newlines.
pub open spec fn command_ok(command: Seq<char>) -> bool {
    no_char(command, '"') && no_char(command, '\n')
}

/// A record that survives a serialize-then-parse round trip.
pub open spec fn record_ok(a: AliasView) -> bool {
    name_ok(a.name) && command_ok(a.command)
}

proof fn lemma_header_facts()
    ensures
        header_text().len() == 77,
        no_char(header_text(), '\n'),
        header_text()[0] == '#',
        header_text()[header_text().len() - 1] == '.',
{
    reveal_strlit("# This file is managed by Alias-Assistant. Manual edits might be overwritten.");
}

proof fn lemma_record_line_no_newline(a: AliasView)
    requires
        record_ok(a),
    ensures
        no_char(record_line(a), '\n'),
{
    reveal_strlit("alias ");
    reveal_strlit("=\"");
    reveal_strlit("\"");
    let line = record_line(a);
    assert forall|i: int| 0 <= i < line.len() implies line[i] != '\n' by {
        let p = alias_prefix().len() as int;
        let q = p + a.name.len();
        let e = q + "=\""@.len();
        let d = e + a.command.len();
        if i < p {
            assert(line[i] == alias_prefix()[i]);
        } else if i < q {
            assert(line[i] == a.name[i - p]);
        } else if i < e {
            assert(line[i] == "=\""@[i - q]);
        } else if i < d {
            assert(line[i] == a.command[i - e]);
        } else {
            assert(line[i] == "\""@[i - d]);
        }
    }
}

/// Serializing one record and parsing the line back restores the record.
proof fn lemma_parse_record_line(a: AliasView)
    requires
        record_ok(a),
    ensures
        spec_parse_line(record_line(a)) == Some(a),
{
    reveal_strlit("alias ");
    reveal_strlit("=\"");
    reveal_strlit("\"");
    let line = record_line(a);
    let p = alias_prefix().len() as int;
    let q = p + a.name.len();
    let e = q + "=\""@.len();
    let d = e + a.command.len();
    assert(line.len() == d + 1);
    assert(line[0] == alias_prefix()[0]);
    assert(line[line.len() - 1] == "\""@[0]);
    assert(!is_space_spec('a') && !is_space_spec('"'));
    lemma_trim_noop(line);
    let t = trim(line);
    assert(t == line);
    assert forall|i: int| 0 <= i < 6 implies t.subrange(0, 6)[i] == alias_prefix()[i] by {
        assert(t.subrange(0, 6)[i] == line[i]);
        assert(line[i] == alias_prefix()[i]);
    }
    assert(t.subrange(0, 6) =~= alias_prefix());
    let rest = t.subrange(6, t.len() as int);
    assert(rest.len() == line.len() - 6);
    assert forall|i: int| 0 <= i < a.name.len() implies rest[i] != '=' by {
        assert(rest[i] == line[6 + i]);
        assert(line[6 + i] == a.name[i]);
    }
    assert(rest[a.name.len() as int] == line[q] == "=\""@[0]);
    lemma_find_char_is(rest, '=', a.name.len() as int);
    let k = a.name.len() as int;
    assert(k < rest.len());
    assert forall|i: int| 0 <= i < k implies rest.subrange(0, k)[i] == a.name[i] by {
        assert(rest.subrange(0, k)[i] == line[6 + i]);
    }
    assert(rest.subrange(0, k) =~= a.name);
    let raw = rest.subrange(k + 1, rest.len() as int);
    assert(raw.len() == a.command.len() + 2);
    assert(raw[0] == line[q + 1] == "=\""@[1]);
    assert(raw[0] == '"');
    let s1 = raw.drop_first();
    assert forall|i: int| 0 <= i < a.command.len() implies s1[i] == a.command[i] by {
        assert(s1[i] == line[e + i]);
    }
    assert(s1[s1.len() - 1] == line[line.len() - 1]);
    assert(s1[s1.len() - 1] == '"');
    assert(s1.drop_last() =~= a.command);
    assert(strip_quotes(raw) == a.command);
}

/// Splitting a text that begins with a newline-free line takes that line off
/// the front.
proof fn lemma_split_prepend(x: Seq<char>, r: Seq<char>)
    requires
        no_char(x, '\n'),
    ensures
        split_lines(x + "\n"@ + r) == seq![x] + split_lines(r),
{
    reveal_strlit("\n");
    let s = x + "\n"@ + r;
    assert(s.len() == x.len() + 1 + r.len());
    assert forall|i: int| 0 <= i < x.len() implies s[i] != '\n' by {
        assert(s[i] == x[i]);
    }
    assert(s[x.len() as int] == "\n"@[0]);
    lemma_find_char_is(s, '\n', x.len() as int);
    let k = x.len() as int;
    assert(s.subrange(0, k) =~= x);
    assert(s.subrange(k + 1, s.len() as int) =~= r);
}

proof fn lemma_parse_empty_line()
    ensures
        spec_parse_line(Seq::<char>::empty()) == Option::<AliasView>::None,
{
    assert(trim(Seq::<char>::empty()).len() == 0);
}

proof fn lemma_parse_records(c: Seq<AliasView>)
    requires
        forall|i: int| 0 <= i < c.len() ==> record_ok(#[trigger] c[i]),
    ensures
        parse_lines(split_lines(records_text(c))) == c,
    decreases c.len(),
{
    if c.len() == 0 {
        let empty = Seq::<char>::empty();
        assert(records_text(c) == empty);
        assert(find_char(empty, '\n') == 0);
        assert(split_lines(empty) == seq![empty]);
        lemma_parse_empty_line();
        assert(seq![empty][0] == empty);
        assert(seq![empty].drop_first() =~= Seq::<Seq<char>>::empty());
        assert(parse_lines(Seq::<Seq<char>>::empty()) == Seq::<AliasView>::empty());
        assert(parse_lines(seq![empty]) == parse_lines(seq![empty].drop_first()));
        assert(parse_lines(split_lines(records_text(c))) =~= c);
    } else {
        let hd = record_line(c[0]);
        let tl = records_text(c.drop_first());
        assert(records_text(c) == hd + "\n"@ + tl);
        lemma_record_line_no_newline(c[0]);
        lemma_split_prepend(hd, tl);
        let lines = seq![hd] + split_lines(tl);
        assert(lines[0] == hd);
        assert(lines.drop_first() =~= split_lines(tl));
        lemma_parse_record_line(c[0]);
        assert(forall|i: int| 0 <= i < c.drop_first().len() ==> record_ok(
            #[trigger] c.drop_first()[i],
        ));
        lemma_parse_records(c.drop_first());
        assert(parse_lines(lines) == seq![c[0]] + c.drop_first());
        assert(seq![c[0]] + c.drop_first() =~= c);
    }
}

/// Round trip: any collection of round-trip-safe records is restored exactly
/// by parsing its own serialization. Commands containing a double quote and
/// names containing `=` or a newline are outside the guarantee.
pub proof fn lemma_round_trip(c: Seq<AliasView>)
    requires
        forall|i: int| 0 <= i < c.len() ==> record_ok(#[trigger] c[i]),
    ensures
        spec_parse(spec_serialize(c)) == c,
{
    reveal_strlit("alias ");
    lemma_header_facts();
    lemma_split_prepend(header_text(), records_text(c));
    let h = header_text();
    assert(!is_space_spec('#') && !is_space_spec('.'));
    lemma_trim_noop(h);
    let t = trim(h);
    if t.len() >= 6 && t.subrange(0, 6) == alias_prefix() {
        assert(t.subrange(0, 6)[0] == h[0]);
        assert(alias_prefix()[0] == 'a');
        assert(false);
    }
    assert(spec_parse_line(h) is None);
    let lines = seq![h] + split_lines(records_text(c));
    assert(lines[0] == h);
    assert(lines.drop_first() =~= split_lines(records_text(c)));
    lemma_parse_records(c);
    assert(spec_parse(spec_serialize(c)) == c);
}

/// Serialized content is canonical: what the file holds after a write is
/// exactly what serializing its own parsed collection produces, so a
/// verbatim export equals the serialization of the current collection.
pub proof fn lemma_export_canonical(c: Seq<AliasView>)
    requires
        forall|i: int| 0 <= i < c.len() ==> record_ok(#[trigger] c[i]),
    ensures
        spec_serialize(spec_parse(spec_serialize(c))) == spec_serialize(c),
{
    lemma_round_trip(c);
}

} // verus!
