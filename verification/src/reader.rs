//! Re-reading the canonical JSON text: a specification-level reader for the
//! record schema, and the proof that reading back a serialized record
//! reconstructs it field for field — the schema is stable.
use crate::extract::{CardV, GameInfoV};
use crate::json::{
    card_json, cards_json, cards_tail, esc, esc_char, game_json, hex_digit, opt_json, str_json,
};
use vstd::prelude::*;

verus! {

/// The character named by a two-character escape, if the name is one.
pub open spec fn named_unescape(e: char) -> Option<char> {
    if e == '"' {
        Some('"')
    } else if e == '\\' {
        Some('\\')
    } else if e == 'b' {
        Some('\u{8}')
    } else if e == 'f' {
        Some('\u{c}')
    } else if e == 'n' {
        Some('\n')
    } else if e == 'r' {
        Some('\r')
    } else if e == 't' {
        Some('\t')
    } else {
        None
    }
}

/// The value of a lowercase hexadecimal digit.
pub open spec fn hex_val(c: char) -> Option<int> {
    if c == '0' {
        Some(0)
    } else if c == '1' {
        Some(1)
    } else if c == '2' {
        Some(2)
    } else if c == '3' {
        Some(3)
    } else if c == '4' {
        Some(4)
    } else if c == '5' {
        Some(5)
    } else if c == '6' {
        Some(6)
    } else if c == '7' {
        Some(7)
    } else if c == '8' {
        Some(8)
    } else if c == '9' {
        Some(9)
    } else if c == 'a' {
        Some(10)
    } else if c == 'b' {
        Some(11)
    } else if c == 'c' {
        Some(12)
    } else if c == 'd' {
        Some(13)
    } else if c == 'e' {
        Some(14)
    } else if c == 'f' {
        Some(15)
    } else {
        None
    }
}

/// Reads the body of a JSON string up to and including its closing quote;
/// yields the unescaped text and what follows the quote.
pub open spec fn read_string_body(t: Seq<char>) -> Option<(Seq<char>, Seq<char>)>
    decreases t.len(),
{
    if t.len() == 0 {
        None
    } else if t[0] == '"' {
        Some((Seq::empty(), t.subrange(1, t.len() as int)))
    } else if t[0] == '\\' {
        if t.len() < 2 {
            None
        } else if t[1] == 'u' {
            if t.len() < 6 {
                None
            } else {
                match (hex_val(t[4]), hex_val(t[5])) {
                    (Some(h), Some(l)) => if t[2] == '0' && t[3] == '0' {
                        match read_string_body(t.subrange(6, t.len() as int)) {
                            Some(p) => Some((seq![((h * 16 + l) as char)] + p.0, p.1)),
                            None => None,
                        }
                    } else {
                        None
                    },
                    _ => None,
                }
            }
        } else {
            match named_unescape(t[1]) {
                Some(c) => match read_string_body(t.subrange(2, t.len() as int)) {
                    Some(p) => Some((seq![c] + p.0, p.1)),
                    None => None,
                },
                None => None,
            }
        }
    } else {
        match read_string_body(t.subrange(1, t.len() as int)) {
            Some(p) => Some((seq![t[0]] + p.0, p.1)),
            None => None,
        }
    }
}

/// Reads a whole JSON string value, opening quote included.
pub open spec fn read_string(t: Seq<char>) -> Option<(Seq<char>, Seq<char>)> {
    if t.len() >= 1 && t[0] == '"' {
        read_string_body(t.subrange(1, t.len() as int))
    } else {
        None
    }
}

/// Reads an optional string value: a JSON string, or the word `null`.
pub open spec fn read_opt(t: Seq<char>) -> Option<(Option<Seq<char>>, Seq<char>)> {
    if t.len() >= 1 && t[0] == '"' {
        match read_string_body(t.subrange(1, t.len() as int)) {
            Some(p) => Some((Some(p.0), p.1)),
            None => None,
        }
    } else if t.len() >= 4 && t.subrange(0, 4) == "null"@ {
        Some((None, t.subrange(4, t.len() as int)))
    } else {
        None
    }
}

/// Reads one card object of the canonical shape.
pub open spec fn read_card(t: Seq<char>) -> Option<(CardV, Seq<char>)> {
    if t.len() >= 8 && t.subrange(0, 8) == "{\"name\":"@ {
        match read_string(t.subrange(8, t.len() as int)) {
            Some((name, r1)) => if r1.len() >= 9 && r1.subrange(0, 9) == ",\"image\":"@ {
                match read_string(r1.subrange(9, r1.len() as int)) {
                    Some((image, r2)) => if r2.len() >= 11 && r2.subrange(0, 11)
                        == ",\"credits\":"@ {
                        match read_opt(r2.subrange(11, r2.len() as int)) {
                            Some((credits, r3)) => if r3.len() >= 1 && r3[0] == '}' {
                                Some(
                                    (
                                        CardV { name, image, credits },
                                        r3.subrange(1, r3.len() as int),
                                    ),
                                )
                            } else {
                                None
                            },
                            None => None,
                        }
                    } else {
                        None
                    },
                    None => None,
                }
            } else {
                None
            },
            None => None,
        }
    } else {
        None
    }
}

/// After one card: reads `,` and a further card, or the closing bracket.
pub open spec fn read_cards_rest(t: Seq<char>) -> Option<(Seq<CardV>, Seq<char>)>
    decreases t.len(),
{
    if t.len() >= 1 && t[0] == ']' {
        Some((Seq::empty(), t.subrange(1, t.len() as int)))
    } else if t.len() >= 1 && t[0] == ',' {
        match read_card(t.subrange(1, t.len() as int)) {
            Some((c, r)) => if r.len() < t.len() {
                match read_cards_rest(r) {
                    Some((cs, r2)) => Some((seq![c] + cs, r2)),
                    None => None,
                }
            } else {
                None
            },
            None => None,
        }
    } else {
        None
    }
}

/// Reads a card array after its opening bracket, closing bracket included.
pub open spec fn read_cards_list(t: Seq<char>) -> Option<(Seq<CardV>, Seq<char>)> {
    if t.len() >= 1 && t[0] == ']' {
        Some((Seq::empty(), t.subrange(1, t.len() as int)))
    } else {
        match read_card(t) {
            Some((c, r)) => if r.len() < t.len() {
                match read_cards_rest(r) {
                    Some((cs, r2)) => Some((seq![c] + cs, r2)),
                    None => None,
                }
            } else {
                None
            },
            None => None,
        }
    }
}

/// Reads a whole record of the canonical shape; the text must end with it.
pub open spec fn read_game(t: Seq<char>) -> Option<GameInfoV> {
    if t.len() >= 9 && t.subrange(0, 9) == "{\"title\":"@ {
        match read_opt(t.subrange(9, t.len() as int)) {
            Some((title, r1)) => if r1.len() >= 17 && r1.subrange(0, 17) == ",\"total_credits\":"@ {
                match read_opt(r1.subrange(17, r1.len() as int)) {
                    Some((total_credits, r2)) => if r2.len() >= 10 && r2.subrange(0, 10)
                        == ",\"cards\":["@ {
                        match read_cards_list(r2.subrange(10, r2.len() as int)) {
                            Some((cards, r3)) => if r3 == seq!['}'] {
                                Some(GameInfoV { title, total_credits, cards })
                            } else {
                                None
                            },
                            None => None,
                        }
                    } else {
                        None
                    },
                    None => None,
                }
            } else {
                None
            },
            None => None,
        }
    } else {
        None
    }
}

/// Reading an escaped text followed by the closing quote recovers the text.
proof fn lemma_read_esc(s: Seq<char>, rest: Seq<char>)
    ensures
        read_string_body(esc(s) + seq!['"'] + rest) == Some((s, rest)),
    decreases s.len(),
{
    reveal_strlit("\\\"");
    reveal_strlit("\\\\");
    reveal_strlit("\\b");
    reveal_strlit("\\f");
    reveal_strlit("\\n");
    reveal_strlit("\\r");
    reveal_strlit("\\t");
    reveal_strlit("\\u00");
    let t = esc(s) + seq!['"'] + rest;
    if s.len() == 0 {
        assert(esc(s) == Seq::<char>::empty());
        assert(t =~= seq!['"'] + rest);
        assert(t[0] == '"');
        assert(t.subrange(1, t.len() as int) =~= rest);
    } else {
        let c = s[0];
        let s1 = s.subrange(1, s.len() as int);
        lemma_read_esc(s1, rest);
        let t1 = esc(s1) + seq!['"'] + rest;
        assert(esc(s) == esc_char(c) + esc(s1));
        assert(t =~= esc_char(c) + t1);
        assert(seq![c] + s1 =~= s);
        if c == '"' {
            assert(t[0] == '\\' && t[1] == '"');
            assert(t.subrange(2, t.len() as int) =~= t1);
        } else if c == '\\' {
            assert(t[0] == '\\' && t[1] == '\\');
            assert(t.subrange(2, t.len() as int) =~= t1);
        } else if c == '\u{8}' {
            assert(t[0] == '\\' && t[1] == 'b');
            assert(t.subrange(2, t.len() as int) =~= t1);
        } else if c == '\u{c}' {
            assert(t[0] == '\\' && t[1] == 'f');
            assert(t.subrange(2, t.len() as int) =~= t1);
        } else if c == '\n' {
            assert(t[0] == '\\' && t[1] == 'n');
            assert(t.subrange(2, t.len() as int) =~= t1);
        } else if c == '\r' {
            assert(t[0] == '\\' && t[1] == 'r');
            assert(t.subrange(2, t.len() as int) =~= t1);
        } else if c == '\t' {
            assert(t[0] == '\\' && t[1] == 't');
            assert(t.subrange(2, t.len() as int) =~= t1);
        } else if (c as u32) < 32 {
            let code = c as u32;
            let hi = code as int / 16;
            let lo = code as int % 16;
            assert(esc_char(c) == "\\u00"@ + seq![hex_digit(hi), hex_digit(lo)]);
            assert(esc_char(c).len() == 6);
            assert(t[0] == '\\' && t[1] == 'u' && t[2] == '0' && t[3] == '0');
            assert(t[4] == hex_digit(hi) && t[5] == hex_digit(lo));
            assert(hex_val(hex_digit(hi)) == Some(hi));
            assert(hex_val(hex_digit(lo)) == Some(lo));
            assert(hi * 16 + lo == code as int);
            vstd::utf8::char_u32_cast(c, code);
            assert((code as char) == c);
            assert(((hi * 16 + lo) as char) == c);
            assert(t.subrange(6, t.len() as int) =~= t1);
        } else {
            assert(esc_char(c) == seq![c]);
            assert(t[0] == c);
            assert(c != '"' && c != '\\');
            assert(t.subrange(1, t.len() as int) =~= t1);
        }
    }
}

/// Reading a serialized string value recovers it.
proof fn lemma_read_str_json(s: Seq<char>, rest: Seq<char>)
    ensures
        read_string(str_json(s) + rest) == Some((s, rest)),
{
    let t = str_json(s) + rest;
    assert(t =~= seq!['"'] + (esc(s) + seq!['"'] + rest));
    assert(t[0] == '"');
    assert(t.subrange(1, t.len() as int) =~= esc(s) + seq!['"'] + rest);
    lemma_read_esc(s, rest);
}

/// Reading a serialized optional value recovers it.
proof fn lemma_read_opt_json(o: Option<Seq<char>>, rest: Seq<char>)
    ensures
        read_opt(opt_json(o) + rest) == Some((o, rest)),
{
    let t = opt_json(o) + rest;
    match o {
        Some(s) => {
            assert(t =~= seq!['"'] + (esc(s) + seq!['"'] + rest));
            assert(t[0] == '"');
            assert(t.subrange(1, t.len() as int) =~= esc(s) + seq!['"'] + rest);
            lemma_read_esc(s, rest);
        },
        None => {
            reveal_strlit("null");
            assert(t.len() >= 4);
            assert(t[0] == 'n');
            assert(t.subrange(0, 4) =~= "null"@);
            assert(t.subrange(4, t.len() as int) =~= rest);
        },
    }
}

/// Reading a serialized card object recovers it.
proof fn lemma_read_card_json(c: CardV, rest: Seq<char>)
    ensures
        read_card(card_json(c) + rest) == Some((c, rest)),
        card_json(c).len() >= 8,
        (card_json(c) + rest)[0] == '{',
{
    reveal_strlit("{\"name\":");
    reveal_strlit(",\"image\":");
    reveal_strlit(",\"credits\":");
    let t = card_json(c) + rest;
    let u6 = seq!['}'] + rest;
    let u5 = opt_json(c.credits) + u6;
    let u4 = ",\"credits\":"@ + u5;
    let u3 = str_json(c.image) + u4;
    let u2 = ",\"image\":"@ + u3;
    let u1 = str_json(c.name) + u2;
    assert(t =~= "{\"name\":"@ + u1);
    assert(t.len() >= 8);
    assert(t.subrange(0, 8) =~= "{\"name\":"@);
    assert(t.subrange(8, t.len() as int) =~= u1);
    lemma_read_str_json(c.name, u2);
    assert(read_string(u1) == Some((c.name, u2)));
    assert(u2.len() >= 9);
    assert(u2.subrange(0, 9) =~= ",\"image\":"@);
    assert(u2.subrange(9, u2.len() as int) =~= u3);
    lemma_read_str_json(c.image, u4);
    assert(u4.len() >= 11);
    assert(u4.subrange(0, 11) =~= ",\"credits\":"@);
    assert(u4.subrange(11, u4.len() as int) =~= u5);
    lemma_read_opt_json(c.credits, u6);
    assert(u6.len() >= 1 && u6[0] == '}');
    assert(u6.subrange(1, u6.len() as int) =~= rest);
    assert(read_card(t) == Some((c, rest)));
    assert(t[0] == '{');
}

/// Reading the comma-separated tail of a serialized card array recovers it.
proof fn lemma_read_cards_tail(cs: Seq<CardV>, rest: Seq<char>)
    ensures
        read_cards_rest(cards_tail(cs) + seq![']'] + rest) == Some((cs, rest)),
    decreases cs.len(),
{
    let t = cards_tail(cs) + seq![']'] + rest;
    if cs.len() == 0 {
        assert(cards_tail(cs) == Seq::<char>::empty());
        assert(t =~= seq![']'] + rest);
        assert(t[0] == ']');
        assert(t.subrange(1, t.len() as int) =~= rest);
    } else {
        let cs1 = cs.subrange(1, cs.len() as int);
        let tail = cards_tail(cs1) + seq![']'] + rest;
        assert(cards_tail(cs) == seq![','] + card_json(cs[0]) + cards_tail(cs1));
        assert(t =~= seq![','] + (card_json(cs[0]) + tail));
        assert(t[0] == ',');
        assert(t[0] != ']');
        assert(t.subrange(1, t.len() as int) =~= card_json(cs[0]) + tail);
        lemma_read_card_json(cs[0], tail);
        assert(tail.len() < t.subrange(1, t.len() as int).len());
        lemma_read_cards_tail(cs1, rest);
        assert(seq![cs[0]] + cs1 =~= cs);
    }
}

/// Reading a serialized card array recovers it.
proof fn lemma_read_cards_json(cs: Seq<CardV>, rest: Seq<char>)
    ensures
        read_cards_list(cards_json(cs) + seq![']'] + rest) == Some((cs, rest)),
{
    let t = cards_json(cs) + seq![']'] + rest;
    if cs.len() == 0 {
        assert(cards_json(cs) == Seq::<char>::empty());
        assert(t =~= seq![']'] + rest);
        assert(t[0] == ']');
        assert(t.subrange(1, t.len() as int) =~= rest);
    } else {
        let cs1 = cs.subrange(1, cs.len() as int);
        let tail = cards_tail(cs1) + seq![']'] + rest;
        assert(cards_json(cs) == card_json(cs[0]) + cards_tail(cs1));
        assert(t =~= card_json(cs[0]) + tail);
        lemma_read_card_json(cs[0], tail);
        assert(t[0] == '{');
        assert(t[0] != ']');
        assert(tail.len() < t.len());
        lemma_read_cards_tail(cs1, rest);
        assert(seq![cs[0]] + cs1 =~= cs);
    }
}

/// Serializing a record and re-reading the JSON reconstructs an equal
/// record, field for field: the schema is stable.
#[verifier::rlimit(100)]
pub proof fn lemma_serialize_round_trip(g: GameInfoV)
    ensures
        read_game(game_json(g)) == Some(g),
{
    reveal_strlit("{\"title\":");
    reveal_strlit(",\"total_credits\":");
    reveal_strlit(",\"cards\":[");
    reveal_strlit("]}");
    let t = game_json(g);
    let u4 = seq!['}'];
    let u3 = cards_json(g.cards) + seq![']'] + u4;
    let u2 = ",\"cards\":["@ + u3;
    let u1 = opt_json(g.total_credits) + u2;
    let u0 = ",\"total_credits\":"@ + u1;
    let ut = opt_json(g.title) + u0;
    assert(t =~= "{\"title\":"@ + ut);
    assert(t.len() >= 9);
    assert(t.subrange(0, 9) =~= "{\"title\":"@);
    assert(t.subrange(9, t.len() as int) =~= ut);
    lemma_read_opt_json(g.title, u0);
    assert(u0.len() >= 17);
    assert(u0.subrange(0, 17) =~= ",\"total_credits\":"@);
    assert(u0.subrange(17, u0.len() as int) =~= u1);
    lemma_read_opt_json(g.total_credits, u2);
    assert(u2.len() >= 10);
    assert(u2.subrange(0, 10) =~= ",\"cards\":["@);
    assert(u2.subrange(10, u2.len() as int) =~= u3);
    lemma_read_cards_json(g.cards, u4);
    assert(read_cards_list(u3) == Some((g.cards, u4)));
    assert(u4 == seq!['}']);
    assert(read_game(t) == Some(GameInfoV { title: g.title, total_credits: g.total_credits, cards: g.cards }));
    assert(GameInfoV { title: g.title, total_credits: g.total_credits, cards: g.cards } == g);
}

} // verus!
