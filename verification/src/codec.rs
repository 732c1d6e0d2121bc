//! On-disk encoding of the user store.
//!
//! A store is written as its fields in order — username, hash, username,
//! hash, ... — each field with `'\\'` and `'\n'` escaped and a
//! terminating newline.  The decoder inverts the encoder exactly:
//! `lemma_fields_round_trip` and `lemma_records_round_trip` prove it.

use vstd::prelude::*;

verus! {

/// Escape one character of a field.
pub open spec fn esc_char(c: char) -> Seq<char> {
    if c == '\\' {
        seq!['\\', '\\']
    } else if c == '\n' {
        seq!['\\', 'n']
    } else {
        seq![c]
    }
}

/// Escape a whole field, character by character.
pub open spec fn esc(s: Seq<char>) -> Seq<char>
    decreases s.len(),
{
    if s.len() == 0 {
        Seq::empty()
    } else {
        esc_char(s[0]) + esc(s.drop_first())
    }
}

/// One encoded field: the escaped content plus its terminating newline.
pub open spec fn enc_field(s: Seq<char>) -> Seq<char> {
    esc(s) + seq!['\n']
}

/// The encoding of a list of fields.
pub open spec fn enc_fields(fs: Seq<Seq<char>>) -> Seq<char>
    decreases fs.len(),
{
    if fs.len() == 0 {
        Seq::empty()
    } else {
        enc_field(fs[0]) + enc_fields(fs.drop_first())
    }
}

/// The fields of a record sequence: usernames and hashes alternating.
pub open spec fn fields_of(rs: Seq<(Seq<char>, Seq<char>)>) -> Seq<Seq<char>>
    decreases rs.len(),
{
    if rs.len() == 0 {
        Seq::empty()
    } else {
        seq![rs[0].0, rs[0].1] + fields_of(rs.drop_first())
    }
}

/// The full encoding of a record sequence.
pub open spec fn enc_records(rs: Seq<(Seq<char>, Seq<char>)>) -> Seq<char> {
    enc_fields(fields_of(rs))
}

/// Put a decoded character at the front of the first decoded field.
/// A character can only stand before the end of input if some terminated
/// field follows, so an empty field list refuses it.
pub open spec fn prepend(c: char, r: Option<Seq<Seq<char>>>) -> Option<Seq<Seq<char>>> {
    match r {
        None => None,
        Some(fs) => if fs.len() == 0 {
            None
        } else {
            Some(seq![seq![c] + fs[0]] + fs.drop_first())
        },
    }
}

/// Put a whole decoded field at the front of a decoded field list.
pub open spec fn cons_field(f: Seq<char>, r: Option<Seq<Seq<char>>>) -> Option<Seq<Seq<char>>> {
    match r {
        None => None,
        Some(fs) => Some(seq![f] + fs),
    }
}

/// Decode an encoded string into its fields.  `None` where the input is
/// not a valid encoding: a dangling escape, an unknown escape, or a final
/// field with no terminating newline.
pub open spec fn dec_fields(s: Seq<char>) -> Option<Seq<Seq<char>>>
    decreases s.len(),
{
    if s.len() == 0 {
        Some(Seq::empty())
    } else if s[0] == '\n' {
        cons_field(Seq::empty(), dec_fields(s.drop_first()))
    } else if s[0] == '\\' {
        if s.len() < 2 {
            None
        } else if s[1] == '\\' {
            prepend('\\', dec_fields(s.skip(2)))
        } else if s[1] == 'n' {
            prepend('\n', dec_fields(s.skip(2)))
        } else {
            None
        }
    } else {
        prepend(s[0], dec_fields(s.drop_first()))
    }
}

/// Pair consecutive fields into records; meaningful for even lengths.
pub open spec fn pair_fields(fs: Seq<Seq<char>>) -> Seq<(Seq<char>, Seq<char>)>
    decreases fs.len(),
{
    if fs.len() < 2 {
        Seq::empty()
    } else {
        seq![(fs[0], fs[1])] + pair_fields(fs.skip(2))
    }
}

/// Decode a record sequence: the fields must decode and come in pairs.
pub open spec fn dec_records(s: Seq<char>) -> Option<Seq<(Seq<char>, Seq<char>)>> {
    match dec_fields(s) {
        None => None,
        Some(fs) => if fs.len() % 2 == 0 {
            Some(pair_fields(fs))
        } else {
            None
        },
    }
}

/// Escaping distributes over concatenation.
proof fn lemma_esc_concat(a: Seq<char>, b: Seq<char>)
    ensures
        esc(a + b) == esc(a) + esc(b),
    decreases a.len(),
{
    if a.len() == 0 {
        assert(a + b =~= b);
        assert(esc(a) + esc(b) =~= esc(b));
    } else {
        assert((a + b).drop_first() =~= a.drop_first() + b);
        lemma_esc_concat(a.drop_first(), b);
        assert(esc_char(a[0]) + (esc(a.drop_first()) + esc(b)) =~= (esc_char(a[0]) + esc(
            a.drop_first(),
        )) + esc(b));
    }
}

/// The escaping of a single character is just that character's escape.
proof fn lemma_esc_one(c: char)
    ensures
        esc(seq![c]) == esc_char(c),
{
    assert(seq![c].drop_first() =~= Seq::<char>::empty());
    assert(esc_char(c) + esc(Seq::<char>::empty()) =~= esc_char(c));
}

/// Decoding past a prepended character is decoding the rest with the
/// character put back at the front of the first field.
proof fn lemma_glue_prepend(done: Seq<Seq<char>>, cur: Seq<char>, c: char, r: Option<
    Seq<Seq<char>>,
>)
    ensures
        glue(done, cur, prepend(c, r)) == glue(done, cur.push(c), r),
{
    match r {
        None => {},
        Some(fs) => {
            if fs.len() == 0 {
            } else {
                let g = seq![seq![c] + fs[0]] + fs.drop_first();
                assert(g[0] == seq![c] + fs[0]);
                assert(g.drop_first() =~= fs.drop_first());
                if cur.len() == 0 {
                    assert(cur.push(c) + fs[0] =~= seq![c] + fs[0]);
                    assert(done + g =~= done + seq![cur.push(c) + fs[0]] + fs.drop_first());
                } else {
                    assert(cur + g[0] =~= cur.push(c) + fs[0]);
                    assert(done + seq![cur + g[0]] + g.drop_first() =~= done + seq![cur.push(c)
                        + fs[0]] + fs.drop_first());
                }
            }
        },
    }
}

/// Decoding past a field terminator closes the field in progress.
proof fn lemma_glue_newline(done: Seq<Seq<char>>, cur: Seq<char>, r: Option<Seq<Seq<char>>>)
    ensures
        glue(done, cur, cons_field(Seq::empty(), r)) == glue(done.push(cur), Seq::empty(), r),
{
    match r {
        None => {},
        Some(fs) => {
            let g = seq![Seq::<char>::empty()] + fs;
            assert(g.len() == fs.len() + 1);
            assert(g[0] == Seq::<char>::empty());
            assert(g.drop_first() =~= fs);
            if cur.len() == 0 {
                assert(cur =~= Seq::<char>::empty());
                assert(done + g =~= done.push(cur) + fs);
            } else {
                assert(cur + g[0] =~= cur);
                assert(done + seq![cur + g[0]] + g.drop_first() =~= done.push(cur) + fs);
            }
        },
    }
}

/// The decode of one encoded field followed by anything: the field comes
/// back exactly, in front of whatever the rest decodes to.
proof fn lemma_dec_enc_field(f: Seq<char>, rest: Seq<char>)
    ensures
        dec_fields(enc_field(f) + rest) == cons_field(f, dec_fields(rest)),
    decreases f.len(),
{
    if f.len() == 0 {
        let s = enc_field(f) + rest;
        assert(f =~= Seq::<char>::empty());
        assert(s =~= seq!['\n'] + rest);
        assert(s[0] == '\n');
        assert(s.drop_first() =~= rest);
    } else {
        let c = f[0];
        let t = enc_field(f.drop_first()) + rest;
        let s = enc_field(f) + rest;
        lemma_esc_concat(seq![c], f.drop_first());
        lemma_esc_one(c);
        assert(f =~= seq![c] + f.drop_first());
        assert(esc(f) == esc_char(c) + esc(f.drop_first()));
        assert(s =~= esc_char(c) + t);
        lemma_dec_enc_field(f.drop_first(), rest);
        if c == '\\' {
            assert(s[0] == '\\' && s[1] == '\\');
            assert(s.skip(2) =~= t);
            lemma_cons_prepend(c, f.drop_first(), dec_fields(rest));
        } else if c == '\n' {
            assert(s[0] == '\\' && s[1] == 'n');
            assert(s.skip(2) =~= t);
            lemma_cons_prepend(c, f.drop_first(), dec_fields(rest));
        } else {
            assert(s[0] == c);
            assert(s.drop_first() =~= t);
            lemma_cons_prepend(c, f.drop_first(), dec_fields(rest));
        }
    }
}

/// Prepending a character to a consed field is consing the longer field.
proof fn lemma_cons_prepend(c: char, f: Seq<char>, r: Option<Seq<Seq<char>>>)
    ensures
        prepend(c, cons_field(f, r)) == cons_field(seq![c] + f, r),
{
    match r {
        None => {},
        Some(fs) => {
            let g = seq![f] + fs;
            assert(g.len() > 0);
            assert(g[0] == f);
            assert(g.drop_first() =~= fs);
            assert(seq![seq![c] + g[0]] + g.drop_first() =~= seq![seq![c] + f] + fs);
        },
    }
}

/// Decoding inverts encoding on any field list.
pub proof fn lemma_fields_round_trip(fs: Seq<Seq<char>>)
    ensures
        dec_fields(enc_fields(fs)) == Some(fs),
    decreases fs.len(),
{
    if fs.len() == 0 {
        assert(enc_fields(fs) =~= Seq::<char>::empty());
    } else {
        lemma_dec_enc_field(fs[0], enc_fields(fs.drop_first()));
        lemma_fields_round_trip(fs.drop_first());
        assert(seq![fs[0]] + fs.drop_first() =~= fs);
    }
}

/// The fields of a record list pair back into exactly those records.
proof fn lemma_pair_fields_of(rs: Seq<(Seq<char>, Seq<char>)>)
    ensures
        fields_of(rs).len() == 2 * rs.len(),
        pair_fields(fields_of(rs)) == rs,
    decreases rs.len(),
{
    if rs.len() == 0 {
    } else {
        let fs = fields_of(rs);
        lemma_pair_fields_of(rs.drop_first());
        assert(fs[0] == rs[0].0);
        assert(fs[1] == rs[0].1);
        assert(fs.skip(2) =~= fields_of(rs.drop_first()));
        assert(seq![(rs[0].0, rs[0].1)] + rs.drop_first() =~= rs);
    }
}

/// Decoding inverts encoding on any record list: the round trip of the
/// store's persistence format is the identity.
pub proof fn lemma_records_round_trip(rs: Seq<(Seq<char>, Seq<char>)>)
    ensures
        dec_records(enc_records(rs)) == Some(rs),
{
    lemma_fields_round_trip(fields_of(rs));
    lemma_pair_fields_of(rs);
}

/// The decode of a partly consumed input, seen from the middle of a scan:
/// `done` fields are complete, `cur` is the field in progress, and the
/// rest of the input must still deliver `rest`.
pub open spec fn glue(done: Seq<Seq<char>>, cur: Seq<char>, rest: Option<Seq<Seq<char>>>) -> Option<
    Seq<Seq<char>>,
> {
    match rest {
        None => None,
        Some(fs) => if cur.len() == 0 {
            Some(done + fs)
        } else if fs.len() == 0 {
            None
        } else {
            Some(done + seq![cur + fs[0]] + fs.drop_first())
        },
    }
}

/// Append the encoding of one field to `out`.
pub(crate) fn push_field(out: &mut Vec<char>, f: &Vec<char>)
    ensures
        final(out)@ == old(out)@ + enc_field(f@),
{
    let n = f.len();
    let mut j: usize = 0;
    while j < n
        invariant
            j <= n,
            n == f@.len(),
            out@ == old(out)@ + esc(f@.take(j as int)),
        decreases n - j,
    {
        let c = f[j];
        proof {
            lemma_esc_concat(f@.take(j as int), seq![f@[j as int]]);
            lemma_esc_one(f@[j as int]);
            assert(f@.take(j + 1 as int) =~= f@.take(j as int) + seq![f@[j as int]]);
        }
        if c == '\\' {
            out.push('\\');
            out.push('\\');
        } else if c == '\n' {
            out.push('\\');
            out.push('n');
        } else {
            out.push(c);
        }
        proof {
            assert(out@ =~= old(out)@ + esc(f@.take(j + 1 as int)));
        }
        j += 1;
    }
    proof {
        assert(f@.take(n as int) =~= f@);
    }
    out.push('\n');
    proof {
        assert(out@ =~= old(out)@ + enc_field(f@));
    }
}

/// Scan an input into its decoded fields, or `None` where it is not a
/// valid encoding.
pub(crate) fn decode_fields(s: &Vec<char>) -> (r: Option<Vec<Vec<char>>>)
    ensures
        match r {
            Some(fs) => dec_fields(s@) == Some(fs@.map_values(|f: Vec<char>| f@)),
            None => dec_fields(s@) is None,
        },
{
    let n = s.len();
    let mut i: usize = 0;
    let mut done: Vec<Vec<char>> = Vec::new();
    let mut cur: Vec<char> = Vec::new();
    proof {
        assert(s@.skip(0int) =~= s@);
        let e = Seq::<Seq<char>>::empty();
        assert(done@.map_values(|f: Vec<char>| f@) =~= e);
        match dec_fields(s@) {
            None => {},
            Some(fs) => {
                assert(e + fs =~= fs);
            },
        }
    }
    while i < n
        invariant
            i <= n,
            n == s@.len(),
            dec_fields(s@) == glue(
                done@.map_values(|f: Vec<char>| f@),
                cur@,
                dec_fields(s@.skip(i as int)),
            ),
        decreases n - i,
    {
        let ghost done_v = done@.map_values(|f: Vec<char>| f@);
        let ghost suffix = s@.skip(i as int);
        proof {
            assert(suffix.len() == n - i);
            assert(suffix[0] == s@[i as int]);
        }
        let c = s[i];
        if c == '\n' {
            proof {
                assert(suffix.drop_first() =~= s@.skip(i + 1 as int));
                lemma_glue_newline(done_v, cur@, dec_fields(s@.skip(i + 1 as int)));
                assert(done@.push(cur).map_values(|f: Vec<char>| f@) =~= done_v.push(cur@));
            }
            done.push(cur);
            cur = Vec::new();
            i += 1;
        } else if c == '\\' {
            if i + 1 == n {
                proof {
                    assert(dec_fields(suffix) is None);
                }
                return None;
            }
            let c2 = s[i + 1];
            proof {
                assert(suffix[1] == s@[i + 1 as int]);
                assert(suffix.skip(2) =~= s@.skip(i + 2 as int));
            }
            if c2 == '\\' {
                proof {
                    lemma_glue_prepend(done_v, cur@, '\\', dec_fields(s@.skip(i + 2 as int)));
                }
                cur.push('\\');
                i += 2;
            } else if c2 == 'n' {
                proof {
                    lemma_glue_prepend(done_v, cur@, '\n', dec_fields(s@.skip(i + 2 as int)));
                }
                cur.push('\n');
                i += 2;
            } else {
                proof {
                    assert(dec_fields(suffix) is None);
                }
                return None;
            }
        } else {
            proof {
                assert(suffix.drop_first() =~= s@.skip(i + 1 as int));
                lemma_glue_prepend(done_v, cur@, c, dec_fields(s@.skip(i + 1 as int)));
            }
            cur.push(c);
            i += 1;
        }
    }
    proof {
        assert(s@.skip(n as int) =~= Seq::<char>::empty());
    }
    if cur.len() == 0 {
        proof {
            let done_v = done@.map_values(|f: Vec<char>| f@);
            assert(done_v + Seq::<Seq<char>>::empty() =~= done_v);
        }
        Some(done)
    } else {
        None
    }
}

} // verus!
