//! The serializer: canonical JSON text for `GameInfo`, with keys `title`,
//! `total_credits` and `cards`, each card an object with `name`, `image` and
//! `credits`; absent optional fields map to `null`; the card array keeps
//! extraction order. String values are escaped the canonical way: quote,
//! backslash and the named control characters by their two-character escapes,
//! all other control characters as a four-digit hexadecimal escape.
use crate::extract::{CardInfo, CardV, GameInfo, GameInfoV};
use vstd::prelude::*;
use vstd::string::{StrSliceExecFns, StringExecFns};

verus! {

/// The lowercase hexadecimal digit of a value below sixteen.
pub open spec fn hex_digit(d: int) -> char {
    if d == 0 {
        '0'
    } else if d == 1 {
        '1'
    } else if d == 2 {
        '2'
    } else if d == 3 {
        '3'
    } else if d == 4 {
        '4'
    } else if d == 5 {
        '5'
    } else if d == 6 {
        '6'
    } else if d == 7 {
        '7'
    } else if d == 8 {
        '8'
    } else if d == 9 {
        '9'
    } else if d == 10 {
        'a'
    } else if d == 11 {
        'b'
    } else if d == 12 {
        'c'
    } else if d == 13 {
        'd'
    } else if d == 14 {
        'e'
    } else {
        'f'
    }
}

/// The escape of one character inside a JSON string.
pub open spec fn esc_char(c: char) -> Seq<char> {
    if c == '"' {
        "\\\""@
    } else if c == '\\' {
        "\\\\"@
    } else if c == '\u{8}' {
        "\\b"@
    } else if c == '\u{c}' {
        "\\f"@
    } else if c == '\n' {
        "\\n"@
    } else if c == '\r' {
        "\\r"@
    } else if c == '\t' {
        "\\t"@
    } else if (c as u32) < 32 {
        "\\u00"@ + seq![hex_digit((c as u32 / 16) as int), hex_digit((c as u32 % 16) as int)]
    } else {
        seq![c]
    }
}

/// The escape of a whole string value.
pub open spec fn esc(s: Seq<char>) -> Seq<char>
    decreases s.len(),
{
    if s.len() == 0 {
        Seq::empty()
    } else {
        esc_char(s[0]) + esc(s.subrange(1, s.len() as int))
    }
}

/// A JSON string value: the escaped text between quotes.
pub open spec fn str_json(s: Seq<char>) -> Seq<char> {
    seq!['"'] + esc(s) + seq!['"']
}

/// An optional string value: a JSON string, or `null` when absent.
pub open spec fn opt_json(o: Option<Seq<char>>) -> Seq<char> {
    match o {
        Some(s) => str_json(s),
        None => "null"@,
    }
}

/// The JSON object text of one card.
pub open spec fn card_json(c: CardV) -> Seq<char> {
    "{\"name\":"@ + str_json(c.name) + ",\"image\":"@ + str_json(c.image) + ",\"credits\":"@
        + opt_json(c.credits) + seq!['}']
}

/// The comma-prefixed tail of a card array.
pub open spec fn cards_tail(cs: Seq<CardV>) -> Seq<char>
    decreases cs.len(),
{
    if cs.len() == 0 {
        Seq::empty()
    } else {
        seq![','] + card_json(cs[0]) + cards_tail(cs.subrange(1, cs.len() as int))
    }
}

/// The comma-separated items of a card array, brackets excluded.
pub open spec fn cards_json(cs: Seq<CardV>) -> Seq<char> {
    if cs.len() == 0 {
        Seq::empty()
    } else {
        card_json(cs[0]) + cards_tail(cs.subrange(1, cs.len() as int))
    }
}

/// The canonical JSON text of a whole record.
pub open spec fn game_json(g: GameInfoV) -> Seq<char> {
    "{\"title\":"@ + opt_json(g.title) + ",\"total_credits\":"@ + opt_json(g.total_credits)
        + ",\"cards\":["@ + cards_json(g.cards) + "]}"@
}

/// The serialized form of the default values: a missing name or image
/// serializes as the two-character empty string, never as `null`; a missing
/// credit value serializes as the word `null`.
pub proof fn lemma_absent_field_rendering()
    ensures
        str_json(Seq::<char>::empty()) == seq!['"', '"'],
        opt_json(None) == "null"@,
{
    assert(esc(Seq::<char>::empty()) == Seq::<char>::empty());
    assert(str_json(Seq::<char>::empty()) =~= seq!['"', '"']);
}

/// For a card whose name is the empty string, the serialized object opens
/// with the name key and the two-character empty string, never `null`.
pub proof fn lemma_empty_name_serialized(c: CardV)
    requires
        c.name == Seq::<char>::empty(),
    ensures
        card_json(c).subrange(0, 10) == "{\"name\":\"\""@,
{
    reveal_strlit("{\"name\":");
    reveal_strlit("{\"name\":\"\"");
    lemma_absent_field_rendering();
    assert(card_json(c).subrange(0, 10) =~= "{\"name\":\"\""@);
}

/// For a card without a credit value, the serialized object closes with the
/// word `null` and the closing brace.
pub proof fn lemma_missing_credits_serialized(c: CardV)
    requires
        c.credits is None,
    ensures
        card_json(c).len() >= 5,
        card_json(c).subrange(card_json(c).len() - 5, card_json(c).len() as int) == "null}"@,
{
    reveal_strlit("null");
    reveal_strlit("null}");
    assert(opt_json(c.credits) == "null"@);
    assert(card_json(c).subrange(card_json(c).len() - 5, card_json(c).len() as int) =~= "null}"@);
}

/// Appending to the items of a card array appends a comma and one object.
proof fn lemma_cards_tail_snoc(cs: Seq<CardV>)
    requires
        cs.len() > 0,
    ensures
        cards_tail(cs) == cards_tail(cs.drop_last()) + seq![','] + card_json(cs.last()),
    decreases cs.len(),
{
    if cs.len() == 1 {
        assert(cs.subrange(1, cs.len() as int) =~= Seq::<CardV>::empty());
        assert(cs.drop_last() =~= Seq::<CardV>::empty());
        assert(cards_tail(cs) =~= cards_tail(cs.drop_last()) + seq![','] + card_json(cs.last()));
    } else {
        let sub = cs.subrange(1, cs.len() as int);
        lemma_cards_tail_snoc(sub);
        assert(sub.last() == cs.last());
        assert(sub.drop_last() =~= cs.drop_last().subrange(1, cs.drop_last().len() as int));
        assert(cs.drop_last()[0] == cs[0]);
        assert(cs.drop_last().len() > 0);
        assert(cards_tail(cs) == seq![','] + card_json(cs[0]) + cards_tail(sub));
        assert(cards_tail(cs.drop_last()) == seq![','] + card_json(cs[0]) + cards_tail(
            sub.drop_last(),
        ));
        assert(cards_tail(cs) =~= cards_tail(cs.drop_last()) + seq![','] + card_json(cs.last()));
    }
}

/// Appending to a card array appends one object, comma-separated after the
/// first.
proof fn lemma_cards_json_snoc(cs: Seq<CardV>)
    requires
        cs.len() > 0,
    ensures
        cs.len() == 1 ==> cards_json(cs) == card_json(cs.last()),
        cs.len() > 1 ==> cards_json(cs) == cards_json(cs.drop_last()) + seq![','] + card_json(
            cs.last(),
        ),
{
    if cs.len() == 1 {
        assert(cs.subrange(1, cs.len() as int) =~= Seq::<CardV>::empty());
        assert(cards_json(cs) =~= card_json(cs.last()));
    } else {
        let sub = cs.subrange(1, cs.len() as int);
        lemma_cards_tail_snoc(sub);
        assert(sub.last() == cs.last());
        assert(sub.drop_last() =~= cs.drop_last().subrange(1, cs.drop_last().len() as int));
        assert(cs.drop_last()[0] == cs[0]);
        assert(cs.drop_last().len() > 0);
        assert(cards_json(cs) == card_json(cs[0]) + cards_tail(sub));
        assert(cards_json(cs.drop_last()) == card_json(cs[0]) + cards_tail(sub.drop_last()));
        assert(cards_json(cs) =~= cards_json(cs.drop_last()) + seq![','] + card_json(cs.last()));
    }
}

/// Escaping distributes over concatenation.
proof fn lemma_esc_append(a: Seq<char>, b: Seq<char>)
    ensures
        esc(a + b) == esc(a) + esc(b),
    decreases a.len(),
{
    if a.len() == 0 {
        assert(a + b =~= b);
        assert(esc(a) =~= Seq::<char>::empty());
        assert(esc(a) + esc(b) =~= esc(b));
    } else {
        let t = a + b;
        assert(t.len() > 0 && t[0] == a[0]);
        lemma_esc_append(a.subrange(1, a.len() as int), b);
        assert(t.subrange(1, t.len() as int) =~= a.subrange(1, a.len() as int) + b);
        assert(esc(a + b) =~= esc(a) + esc(b));
    }
}

/// The lowercase hexadecimal digit, as a one-character string slice.
fn hex_str(d: u8) -> (r: &'static str)
    requires
        d < 16,
    ensures
        r@ == seq![hex_digit(d as int)],
{
    if d == 0 {
        proof {
            reveal_strlit("0");
        }
        "0"
    } else if d == 1 {
        proof {
            reveal_strlit("1");
        }
        "1"
    } else if d == 2 {
        proof {
            reveal_strlit("2");
        }
        "2"
    } else if d == 3 {
        proof {
            reveal_strlit("3");
        }
        "3"
    } else if d == 4 {
        proof {
            reveal_strlit("4");
        }
        "4"
    } else if d == 5 {
        proof {
            reveal_strlit("5");
        }
        "5"
    } else if d == 6 {
        proof {
            reveal_strlit("6");
        }
        "6"
    } else if d == 7 {
        proof {
            reveal_strlit("7");
        }
        "7"
    } else if d == 8 {
        proof {
            reveal_strlit("8");
        }
        "8"
    } else if d == 9 {
        proof {
            reveal_strlit("9");
        }
        "9"
    } else if d == 10 {
        proof {
            reveal_strlit("a");
        }
        "a"
    } else if d == 11 {
        proof {
            reveal_strlit("b");
        }
        "b"
    } else if d == 12 {
        proof {
            reveal_strlit("c");
        }
        "c"
    } else if d == 13 {
        proof {
            reveal_strlit("d");
        }
        "d"
    } else if d == 14 {
        proof {
            reveal_strlit("e");
        }
        "e"
    } else {
        proof {
            reveal_strlit("f");
        }
        "f"
    }
}

/// Appends the escape of `s` to `out`.
fn append_escaped(out: &mut String, s: &str)
    ensures
        final (out)@ == old(out)@ + esc(s@),
{
    let n = s.unicode_len();
    for i in 0..n
        invariant
            n == s@.len(),
            out@ == old(out)@ + esc(s@.subrange(0, i as int)),
    {
        let c = s.get_char(i);
        proof {
            lemma_esc_append(s@.subrange(0, i as int), seq![c]);
            assert(s@.subrange(0, i + 1 as int) =~= s@.subrange(0, i as int) + seq![c]);
            assert(seq![c].subrange(1, 1) =~= Seq::<char>::empty());
            assert(esc(Seq::<char>::empty()) == Seq::<char>::empty());
            assert(esc(seq![c]) == esc_char(seq![c][0]) + esc(seq![c].subrange(1, 1)));
            assert(esc(seq![c]) =~= esc_char(c));
        }
        if c == '"' {
            out.append("\\\"");
            proof {
                assert(out@ =~= old(out)@ + esc(s@.subrange(0, i + 1 as int)));
            }
        } else if c == '\\' {
            out.append("\\\\");
            proof {
                assert(out@ =~= old(out)@ + esc(s@.subrange(0, i + 1 as int)));
            }
        } else if c == '\u{8}' {
            out.append("\\b");
            proof {
                assert(out@ =~= old(out)@ + esc(s@.subrange(0, i + 1 as int)));
            }
        } else if c == '\u{c}' {
            out.append("\\f");
            proof {
                assert(out@ =~= old(out)@ + esc(s@.subrange(0, i + 1 as int)));
            }
        } else if c == '\n' {
            out.append("\\n");
            proof {
                assert(out@ =~= old(out)@ + esc(s@.subrange(0, i + 1 as int)));
            }
        } else if c == '\r' {
            out.append("\\r");
            proof {
                assert(out@ =~= old(out)@ + esc(s@.subrange(0, i + 1 as int)));
            }
        } else if c == '\t' {
            out.append("\\t");
            proof {
                assert(out@ =~= old(out)@ + esc(s@.subrange(0, i + 1 as int)));
            }
        } else if (c as u32) < 32 {
            let code: u32 = c as u32;
            out.append("\\u00");
            out.append(hex_str((code / 16) as u8));
            out.append(hex_str((code % 16) as u8));
            proof {
                assert(esc_char(c) == "\\u00"@ + seq![
                    hex_digit((c as u32 / 16) as int),
                    hex_digit((c as u32 % 16) as int),
                ]);
                assert(seq![hex_digit(code as int / 16), hex_digit(code as int % 16)] =~= seq![
                    hex_digit(code as int / 16),
                ] + seq![hex_digit(code as int % 16)]);
                assert(out@ =~= old(out)@ + esc(s@.subrange(0, i + 1 as int)));
            }
        } else {
            let one = s.substring_char(i, i + 1);
            out.append(one);
            proof {
                assert(one@ =~= seq![c]);
                assert(esc_char(c) == seq![c]);
                assert(out@ =~= old(out)@ + esc(s@.subrange(0, i + 1 as int)));
            }
        }
    }
    proof {
        assert(s@.subrange(0, n as int) =~= s@);
    }
}

/// Appends a JSON string value to `out`.
pub(crate) fn append_str_json(out: &mut String, s: &str)
    ensures
        final (out)@ == old(out)@ + str_json(s@),
{
    out.append("\"");
    append_escaped(out, s);
    out.append("\"");
    proof {
        reveal_strlit("\"");
        assert("\""@ =~= seq!['"']);
        assert(out@ =~= old(out)@ + str_json(s@));
    }
}

/// Appends an optional string value (`null` when absent) to `out`.
fn append_opt_json(out: &mut String, o: &Option<String>)
    ensures
        final (out)@ == old(out)@ + opt_json(
            match o {
                Some(s) => Some(s@),
                None => None,
            },
        ),
{
    match o {
        Some(s) => {
            append_str_json(out, s.as_str());
        },
        None => {
            out.append("null");
        },
    }
}

/// Appends the JSON object of one card to `out`.
fn append_card_json(out: &mut String, c: &CardInfo)
    ensures
        final (out)@ == old(out)@ + card_json(c@),
{
    out.append("{\"name\":");
    append_str_json(out, c.name.as_str());
    out.append(",\"image\":");
    append_str_json(out, c.image.as_str());
    out.append(",\"credits\":");
    append_opt_json(out, &c.credits);
    out.append("}");
    proof {
        reveal_strlit("}");
        assert("}"@ =~= seq!['}']);
        assert(out@ =~= old(out)@ + card_json(c@));
    }
}

/// The canonical JSON text of the record: keys `title`, `total_credits` and
/// `cards`; absent optional fields serialize as `null`; the `cards` array
/// preserves extraction order.
pub fn serialize_game(g: &GameInfo) -> (r: String)
    ensures
        r@ == game_json(g@),
{
    let mut out = String::new();
    out.append("{\"title\":");
    append_opt_json(&mut out, &g.title);
    out.append(",\"total_credits\":");
    append_opt_json(&mut out, &g.total_credits);
    out.append(",\"cards\":[");
    let ghost pre = out@;
    let ncards = g.cards.len();
    for k in 0..ncards
        invariant
            ncards == g.cards@.len(),
            pre == "{\"title\":"@ + opt_json(g@.title) + ",\"total_credits\":"@ + opt_json(
                g@.total_credits,
            ) + ",\"cards\":["@,
            g@.cards == g.cards@.map_values(|c: CardInfo| c@),
            g@.cards.len() == ncards,
            out@ == pre + cards_json(g@.cards.subrange(0, k as int)),
    {
        if k > 0 {
            out.append(",");
        }
        append_card_json(&mut out, &g.cards[k]);
        proof {
            reveal_strlit(",");
            let cs = g@.cards.subrange(0, k + 1 as int);
            assert(cs.len() == k + 1);
            assert(g.cards@[k as int]@ == g@.cards[k as int]);
            assert(cs.last() == g@.cards[k as int]);
            lemma_cards_json_snoc(cs);
            assert(cs.drop_last() =~= g@.cards.subrange(0, k as int));
            if k == 0 {
                assert(cards_json(g@.cards.subrange(0, 0)) =~= Seq::<char>::empty());
                assert(out@ =~= pre + cards_json(cs));
            } else {
                assert(","@ =~= seq![',']);
                assert(out@ =~= pre + cards_json(cs));
            }
        }
    }
    out.append("]}");
    proof {
        assert(g@.cards.subrange(0, ncards as int) =~= g@.cards);
        assert(out@ =~= game_json(g@));
    }
    out
}

} // verus!
