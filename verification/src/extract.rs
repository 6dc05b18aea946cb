//! The board extractor: locates the piece, player and last-move elements
//! of a broadcast page snapshot and turns them into the canonical board,
//! the perspective and the highlighted squares.
//!
//! The page text itself is read through a small trusted boundary around
//! the HTML parser; everything from the raw attribute strings on is
//! verified.

use vstd::prelude::*;
use crate::board::{Board, Color, PieceType, Perspective, color_value, kind_value, valid_code};
use crate::coords::spec_percent_to_cell;
use crate::coords::percent_to_cell;
use crate::error::{Error, MissingPart};
use crate::parse::{
    chars_of, contains_seq, copy_range, find_from, is_substring_of, parse_percent_value,
    spec_find, spec_percent_value, spec_tokens, spec_trim, split_tokens, trim, vec_eq,
};

verus! {

/// Whether the page holds a title element. Deterministic in the page text:
/// it names what the HTML parser finds there.
pub uninterp spec fn title_found(html: Seq<char>) -> bool;

/// The (class attribute, style attribute) text of each piece element of
/// the page, in document order.
pub uninterp spec fn piece_attrs_of(html: Seq<char>) -> Seq<(Seq<char>, Seq<char>)>;

/// The (class attribute, first child link target) text of each player
/// element of the page, in document order.
pub uninterp spec fn player_attrs_of(html: Seq<char>) -> Seq<(Seq<char>, Seq<char>)>;

/// The style attribute text of each last-move element of the page, in
/// document order.
pub uninterp spec fn last_move_styles_of(html: Seq<char>) -> Seq<Seq<char>>;

/// The lowercase form of a string, as the standard library computes it.
pub uninterp spec fn lower_of(s: Seq<char>) -> Seq<char>;

/// Relies on tl::parse and tl's query interface: reports whether the
/// document holds a `title` element. Unparsable text holds none.
#[verifier::external_body]
fn dom_has_title(html: &str) -> (r: bool)
    ensures
        r == title_found(html@),
{
    match tl::parse(html, tl::ParserOptions::default()) {
        Ok(dom) => dom.query_selector("title").and_then(|mut it| it.next()).is_some(),
        Err(_) => false,
    }
}

/// Relies on tl::parse and tl's attribute accessors: hands out the class
/// and style attribute text of each `piece` element, in document order; an
/// absent attribute is handed on as the empty string, and unparsable text
/// holds no elements.
#[verifier::external_body]
fn dom_piece_attrs(html: &str) -> (r: Vec<(String, String)>)
    ensures
        r.deep_view() == piece_attrs_of(html@),
{
    let mut out = Vec::new();
    let txt = |b: &tl::Bytes| b.as_utf8_str().into_owned();
    let Ok(dom) = tl::parse(html, tl::ParserOptions::default()) else { return out };
    let Some(iter) = dom.query_selector("piece") else { return out };
    for h in iter {
        let Some(tag) = h.get(dom.parser()).and_then(|n| n.as_tag()) else { continue };
        let style = tag.attributes().get("style").flatten();
        out.push((tag.attributes().class().map(txt).unwrap_or_default(), style.map(txt).unwrap_or_default()));
    }
    out
}

/// Relies on tl::parse and tl's attribute accessors: hands out the class
/// attribute and the first child's link target of each element of class
/// `player`, in document order; an absent attribute or child is handed on
/// as the empty string, and unparsable text holds no elements.
#[verifier::external_body]
fn dom_player_attrs(html: &str) -> (r: Vec<(String, String)>)
    ensures
        r.deep_view() == player_attrs_of(html@),
{
    let mut out = Vec::new();
    let txt = |b: &tl::Bytes| b.as_utf8_str().into_owned();
    let Ok(dom) = tl::parse(html, tl::ParserOptions::default()) else { return out };
    for h in dom.get_elements_by_class_name("player") {
        let Some(tag) = h.get(dom.parser()).and_then(|n| n.as_tag()) else { continue };
        let link = tag.children().all(dom.parser()).first().and_then(|n| n.as_tag());
        let href = link.and_then(|t| t.attributes().get("href").flatten());
        out.push((tag.attributes().class().map(txt).unwrap_or_default(), href.map(txt).unwrap_or_default()));
    }
    out
}

/// Relies on tl::parse and tl's attribute accessors: hands out the style
/// attribute text of each element of class `last-move`, in document order;
/// an absent attribute is handed on as the empty string, and unparsable
/// text holds no elements.
#[verifier::external_body]
fn dom_last_move_styles(html: &str) -> (r: Vec<String>)
    ensures
        r.deep_view() == last_move_styles_of(html@),
{
    let mut out = Vec::new();
    let Ok(dom) = tl::parse(html, tl::ParserOptions::default()) else { return out };
    for h in dom.get_elements_by_class_name("last-move") {
        let Some(tag) = h.get(dom.parser()).and_then(|n| n.as_tag()) else { continue };
        let style = tag.attributes().get("style").flatten();
        out.push(style.map(|b| b.as_utf8_str().into_owned()).unwrap_or_default());
    }
    out
}

/// Relies on str::to_lowercase: the result depends on the characters
/// alone.
#[verifier::external_body]
fn lowercase(s: &str) -> (r: String)
    ensures
        r@ == lower_of(s@),
{
    s.to_lowercase()
}

/// Everything the extractor reads from a page: whether a title exists, and
/// the raw attribute text of the piece, player and last-move elements, in
/// document order.
pub struct Snapshot {
    pub has_title: bool,
    pub pieces: Vec<(String, String)>,
    pub players: Vec<(String, String)>,
    pub last_moves: Vec<String>,
}

/// The mathematical view of a snapshot.
pub ghost struct SnapshotModel {
    pub has_title: bool,
    pub pieces: Seq<(Seq<char>, Seq<char>)>,
    pub players: Seq<(Seq<char>, Seq<char>)>,
    pub last_moves: Seq<Seq<char>>,
}

impl View for Snapshot {
    type V = SnapshotModel;

    open spec fn view(&self) -> SnapshotModel {
        SnapshotModel {
            has_title: self.has_title,
            pieces: self.pieces.deep_view(),
            players: self.players.deep_view(),
            last_moves: self.last_moves.deep_view(),
        }
    }
}

/// The percentage value of one `key:value%` style segment, when its key is
/// the expected word and its value a decimal percentage literal, both
/// tolerating surrounding whitespace.
pub open spec fn spec_parse_segment(seg: Seq<char>, key: Seq<char>) -> Option<int> {
    let colon = spec_find(seg, ':', 0);
    if colon >= seg.len() {
        None
    } else {
        let k = spec_trim(seg.subrange(0, colon));
        let val = spec_trim(seg.subrange(colon + 1, seg.len() as int));
        if k != key || val.len() == 0 || val.last() != '%' {
            None
        } else {
            spec_percent_value(val.drop_last())
        }
    }
}

/// The (top, left) percentage pair of an inline style attribute of the
/// form `top:<percent>%;left:<percent>%`: anything from the first double quote on is
/// ignored, and the first two `;`-separated segments must carry the `top`
/// and `left` keys in that order.
pub open spec fn spec_parse_style(style: Seq<char>) -> Option<(int, int)> {
    let cut = style.subrange(0, spec_find(style, '"', 0));
    let s1 = spec_find(cut, ';', 0);
    if s1 >= cut.len() {
        None
    } else {
        let seg0 = cut.subrange(0, s1);
        let rest = cut.subrange(s1 + 1, cut.len() as int);
        let seg1 = rest.subrange(0, spec_find(rest, ';', 0));
        match (spec_parse_segment(seg0, "top"@), spec_parse_segment(seg1, "left"@)) {
            (Some(t), Some(l)) => Some((t, l)),
            _ => None,
        }
    }
}

/// Parses one `key:value%` segment of a style attribute.
fn parse_segment(seg: &Vec<char>, key: &str) -> (r: Option<u32>)
    ensures
        spec_parse_segment(seg@, key@) matches Some(p) ==> r matches Some(c) && c as int == p,
        spec_parse_segment(seg@, key@) is None ==> r is None,
{
    let colon = find_from(seg, ':', 0);
    if colon >= seg.len() {
        return None;
    }
    let kpart = copy_range(seg, 0, colon);
    let k = trim(&kpart);
    let kexp = chars_of(key);
    if !vec_eq(&k, &kexp) {
        return None;
    }
    let vpart = copy_range(seg, colon + 1, seg.len());
    let val = trim(&vpart);
    if val.len() == 0 {
        return None;
    }
    if val[val.len() - 1] != '%' {
        proof {
            assert(val@.last() != '%');
        }
        return None;
    }
    let digits = copy_range(&val, 0, val.len() - 1);
    proof {
        assert(digits@ =~= val@.drop_last());
    }
    parse_percent_value(&digits)
}

/// Parses the (top, left) percentage pair of an inline style attribute.
pub fn parse_style(style: &Vec<char>) -> (r: Option<(u32, u32)>)
    ensures
        spec_parse_style(style@) matches Some(p) ==> r matches Some(q) && q.0 as int == p.0
            && q.1 as int == p.1,
        spec_parse_style(style@) is None ==> r is None,
{
    let quote = find_from(style, '"', 0);
    let cut = copy_range(style, 0, quote);
    let s1 = find_from(&cut, ';', 0);
    if s1 >= cut.len() {
        return None;
    }
    let seg0 = copy_range(&cut, 0, s1);
    let rest = copy_range(&cut, s1 + 1, cut.len());
    let s2 = find_from(&rest, ';', 0);
    let seg1 = copy_range(&rest, 0, s2);
    let t = match parse_segment(&seg0, "top") {
        Some(t) => t,
        None => {
            return None;
        },
    };
    let l = match parse_segment(&seg1, "left") {
        Some(l) => l,
        None => {
            return None;
        },
    };
    Some((t, l))
}

/// Parses a color class token from the fixed vocabulary.
fn color_of_token(tok: &Vec<char>) -> (r: Option<Color>)
    ensures
        r == Color::spec_from_str(tok@),
{
    if vec_eq(tok, &chars_of("light")) {
        Some(Color::Light)
    } else if vec_eq(tok, &chars_of("dark")) {
        Some(Color::Dark)
    } else {
        None
    }
}

/// Parses a piece-kind class token from the fixed vocabulary.
fn kind_of_token(tok: &Vec<char>) -> (r: Option<PieceType>)
    ensures
        r == PieceType::spec_from_str(tok@),
{
    if vec_eq(tok, &chars_of("king")) {
        Some(PieceType::King)
    } else if vec_eq(tok, &chars_of("queen")) {
        Some(PieceType::Queen)
    } else if vec_eq(tok, &chars_of("rook")) {
        Some(PieceType::Rook)
    } else if vec_eq(tok, &chars_of("bishop")) {
        Some(PieceType::Bishop)
    } else if vec_eq(tok, &chars_of("knight")) {
        Some(PieceType::Knight)
    } else if vec_eq(tok, &chars_of("pawn")) {
        Some(PieceType::Pawn)
    } else {
        None
    }
}

/// The square code and (row, col) cell described by one piece element's
/// class and style attributes, if both are well formed: the first class
/// token is the color, the second the piece kind, and the style's top and
/// left percentages give the row and the column.
pub open spec fn spec_piece_entry(class: Seq<char>, style: Seq<char>) -> Option<(u8, int, int)> {
    let toks = spec_tokens(class);
    if toks.len() < 2 {
        None
    } else {
        match (Color::spec_from_str(toks[0]), PieceType::spec_from_str(toks[1])) {
            (Some(c), Some(k)) => match spec_parse_style(style) {
                Some(p) => if p.0 <= 10000 && p.1 <= 10000 {
                    Some(
                        (
                            (color_value(c) * 8 + kind_value(k)) as u8,
                            spec_percent_to_cell(p.0),
                            spec_percent_to_cell(p.1),
                        ),
                    )
                } else {
                    None
                },
                None => None,
            },
            _ => None,
        }
    }
}

/// Parses one piece element into its square code and cell.
fn parse_piece(class_attr: &str, style_attr: &str) -> (r: Option<(u8, u8, u8)>)
    ensures
        spec_piece_entry(class_attr@, style_attr@) matches Some(e) ==> r matches Some(q) && q.0
            == e.0 && q.1 as int == e.1 && q.2 as int == e.2 && valid_code(q.0) && q.0 != 0
            && q.1 < 8 && q.2 < 8,
        spec_piece_entry(class_attr@, style_attr@) is None ==> r is None,
{
    let class = chars_of(class_attr);
    let toks = split_tokens(&class);
    if toks.len() < 2 {
        return None;
    }
    proof {
        assert(toks.deep_view()[0] == toks@[0]@);
        assert(toks.deep_view()[1] == toks@[1]@);
    }
    let color = match color_of_token(&toks[0]) {
        Some(c) => c,
        None => {
            return None;
        },
    };
    let kind = match kind_of_token(&toks[1]) {
        Some(k) => k,
        None => {
            return None;
        },
    };
    let style = chars_of(style_attr);
    let p = match parse_style(&style) {
        Some(p) => p,
        None => {
            return None;
        },
    };
    let row = match percent_to_cell(p.0) {
        Ok(c) => c,
        Err(_) => {
            return None;
        },
    };
    let col = match percent_to_cell(p.1) {
        Ok(c) => c,
        Err(_) => {
            return None;
        },
    };
    let code = crate::board::make_code(color, kind);
    Some((code, row, col))
}

/// The board built by writing the first `n` piece entries onto an empty
/// grid in document order, the last writer winning; nothing as soon as
/// one entry is malformed.
pub open spec fn spec_apply_pieces(pieces: Seq<(Seq<char>, Seq<char>)>, n: int) -> Option<
    Seq<u8>,
>
    decreases n,
{
    if n <= 0 {
        Some(Seq::new(64, |i: int| 0u8))
    } else {
        match spec_apply_pieces(pieces, n - 1) {
            Some(b) => match spec_piece_entry(pieces[n - 1].0, pieces[n - 1].1) {
                Some(e) => Some(b.update(e.1 * 8 + e.2, e.0)),
                None => None,
            },
            None => None,
        }
    }
}

/// Once a malformed piece entry stops the fold, more pieces do not revive
/// it.
proof fn lemma_apply_pieces_none(pieces: Seq<(Seq<char>, Seq<char>)>, i: int, n: int)
    requires
        0 <= i <= n,
        spec_apply_pieces(pieces, i) is None,
    ensures
        spec_apply_pieces(pieces, n) is None,
    decreases n - i,
{
    if i < n {
        lemma_apply_pieces_none(pieces, i + 1, n);
    }
}

/// The index of the first player element whose link target contains the
/// subject, both lowercased, or the number of players if none matches.
pub open spec fn spec_match_player(
    players: Seq<(Seq<char>, Seq<char>)>,
    subject: Seq<char>,
    i: int,
) -> int
    decreases players.len() - i,
{
    if i < 0 || i >= players.len() {
        players.len() as int
    } else if is_substring_of(lower_of(subject), lower_of(players[i].1)) {
        i
    } else {
        spec_match_player(players, subject, i + 1)
    }
}

/// The perspective named by the matched player element: a class list
/// holding the light-side marker means the subject is playing the dark
/// side, anything else the light side.
pub open spec fn spec_player_perspective(class: Seq<char>) -> Perspective {
    if spec_tokens(class).contains("light"@) {
        Perspective::DarkAtBottom
    } else {
        Perspective::LightAtBottom
    }
}

/// Decides the perspective from a matched player element's class list.
fn player_perspective(class_attr: &str) -> (r: Perspective)
    ensures
        r == spec_player_perspective(class_attr@),
{
    let class = chars_of(class_attr);
    let toks = split_tokens(&class);
    let marker = chars_of("light");
    let mut i: usize = 0;
    while i < toks.len()
        invariant
            i <= toks@.len(),
            marker@ == "light"@,
            toks.deep_view() == spec_tokens(class_attr@),
            class@ == class_attr@,
            forall|j: int| 0 <= j < i ==> toks.deep_view()[j] != "light"@,
        decreases toks@.len() - i,
    {
        if vec_eq(&toks[i], &marker) {
            proof {
                assert(toks.deep_view()[i as int] == toks@[i as int]@);
                assert(spec_tokens(class_attr@).contains("light"@));
            }
            return Perspective::DarkAtBottom;
        }
        proof {
            assert(toks.deep_view()[i as int] == toks@[i as int]@);
        }
        i = i + 1;
    }
    proof {
        assert(!spec_tokens(class_attr@).contains("light"@)) by {
            assert(forall|j: int|
                0 <= j < spec_tokens(class_attr@).len() ==> spec_tokens(class_attr@)[j]
                    != "light"@);
        }
    }
    Perspective::LightAtBottom
}

/// The highlighted cells named by the first `n` last-move style
/// attributes, in encounter order; nothing as soon as one is malformed.
pub open spec fn spec_highlights(styles: Seq<Seq<char>>, n: int) -> Option<Seq<(u8, u8)>>
    decreases n,
{
    if n <= 0 {
        Some(Seq::<(u8, u8)>::empty())
    } else {
        match spec_highlights(styles, n - 1) {
            Some(hs) => match spec_parse_style(styles[n - 1]) {
                Some(p) => if p.0 <= 10000 && p.1 <= 10000 {
                    Some(
                        hs.push(
                            (
                                spec_percent_to_cell(p.0) as u8,
                                spec_percent_to_cell(p.1) as u8,
                            ),
                        ),
                    )
                } else {
                    None
                },
                None => None,
            },
            None => None,
        }
    }
}

/// Once a malformed last-move entry stops the fold, more entries do not
/// revive it.
proof fn lemma_highlights_none(styles: Seq<Seq<char>>, i: int, n: int)
    requires
        0 <= i <= n,
        spec_highlights(styles, i) is None,
    ensures
        spec_highlights(styles, n) is None,
    decreases n - i,
{
    if i < n {
        lemma_highlights_none(styles, i + 1, n);
    }
}

/// The mathematical view of an extraction result.
pub ghost struct ExtractionModel {
    pub squares: Seq<u8>,
    pub perspective: Perspective,
    pub highlights: Seq<(u8, u8)>,
}

/// What the extractor produces: the as-scraped board, the perspective, and
/// up to two highlighted squares in encounter order.
#[derive(Debug, PartialEq, Eq)]
pub struct Extraction {
    pub board: Board,
    pub perspective: Perspective,
    pub highlights: Vec<(u8, u8)>,
}

impl View for Extraction {
    type V = ExtractionModel;

    open spec fn view(&self) -> ExtractionModel {
        ExtractionModel {
            squares: self.board.squares@,
            perspective: self.perspective,
            highlights: self.highlights@,
        }
    }
}

/// What the extractor returns on a snapshot: the title must exist, at
/// least one piece element (else there is no active game), every piece
/// and last-move attribute must parse, and exactly one of the player
/// elements must name the subject.
pub open spec fn spec_extract(snap: SnapshotModel, subject: Seq<char>) -> Result<
    ExtractionModel,
    Error,
> {
    if !snap.has_title {
        Err(Error::MarkupMissing(MissingPart::Title))
    } else if snap.pieces.len() == 0 {
        Err(Error::MarkupMissing(MissingPart::Pieces))
    } else {
        match spec_apply_pieces(snap.pieces, snap.pieces.len() as int) {
            None => Err(Error::MalformedAttribute),
            Some(squares) => {
                if snap.players.len() == 0 {
                    Err(Error::MarkupMissing(MissingPart::Players))
                } else {
                    let m = spec_match_player(snap.players, subject, 0);
                    if m >= snap.players.len() {
                        Err(Error::AmbiguousOrientation)
                    } else {
                        let hn = if snap.last_moves.len() < 2 {
                            snap.last_moves.len() as int
                        } else {
                            2
                        };
                        match spec_highlights(snap.last_moves, hn) {
                            None => Err(Error::MalformedAttribute),
                            Some(hs) => Ok(
                                ExtractionModel {
                                    squares,
                                    perspective: spec_player_perspective(snap.players[m].0),
                                    highlights: hs,
                                },
                            ),
                        }
                    }
                }
            },
        }
    }
}

/// Extracts the board, the perspective and the highlighted squares from a
/// page snapshot, or fails with the first fault found.
#[verifier::loop_isolation(false)]
pub fn extract(snap: &Snapshot, subject: &str) -> (r: Result<Extraction, Error>)
    ensures
        spec_extract(snap@, subject@) matches Ok(m) ==> r matches Ok(e) && e@ == m
            && e.board.wf(),
        spec_extract(snap@, subject@) matches Err(err) ==> r matches Err(e2) && e2 == err,
        r matches Ok(e) ==> e.board.wf() && e.highlights@.len() <= 2 && forall|j: int|
            0 <= j < e.highlights@.len() ==> (#[trigger] e.highlights@[j]).0 < 8
                && e.highlights@[j].1 < 8,
{
    if !snap.has_title {
        return Err(Error::MarkupMissing(MissingPart::Title));
    }
    if snap.pieces.len() == 0 {
        return Err(Error::MarkupMissing(MissingPart::Pieces));
    }
    let ghost pieces = snap.pieces.deep_view();
    let mut board = Board::new();
    let mut i: usize = 0;
    while i < snap.pieces.len()
        invariant
            i <= snap.pieces.len(),
            pieces == snap.pieces.deep_view(),
            pieces.len() == snap.pieces@.len(),
            board.wf(),
            spec_apply_pieces(pieces, i as int) == Some(board.squares@),
        decreases snap.pieces@.len() - i,
    {
        proof {
            assert(pieces[i as int] == (snap.pieces@[i as int].0@, snap.pieces@[i as int].1@));
        }
        let entry = parse_piece(snap.pieces[i].0.as_str(), snap.pieces[i].1.as_str());
        match entry {
            Some((code, row, col)) => {
                board.put(row as usize, col as usize, code);
            },
            None => {
                proof {
                    lemma_apply_pieces_none(pieces, i as int + 1, pieces.len() as int);
                }
                return Err(Error::MalformedAttribute);
            },
        }
        i = i + 1;
    }
    if snap.players.len() == 0 {
        return Err(Error::MarkupMissing(MissingPart::Players));
    }
    let ghost players = snap.players.deep_view();
    let subject_lower_s = lowercase(subject);
    let subject_lower = chars_of(subject_lower_s.as_str());
    let mut m: usize = 0;
    let mut found = false;
    while !found && m < snap.players.len()
        invariant
            m <= snap.players.len(),
            players == snap.players.deep_view(),
            players.len() == snap.players@.len(),
            subject_lower@ == lower_of(subject@),
            spec_match_player(players, subject@, 0) == if found {
                m as int
            } else {
                spec_match_player(players, subject@, m as int)
            },
            found ==> m < snap.players.len(),
        decreases 2 * (snap.players@.len() - m) + (if found {
            0int
        } else {
            1int
        }),
    {
        proof {
            assert(players[m as int] == (snap.players@[m as int].0@, snap.players@[m as int].1@));
        }
        let href_lower_s = lowercase(snap.players[m].1.as_str());
        let href_lower = chars_of(href_lower_s.as_str());
        if contains_seq(&href_lower, &subject_lower) {
            found = true;
        } else {
            m = m + 1;
        }
    }
    if !found {
        proof {
            assert(spec_match_player(players, subject@, 0) == players.len() as int);
        }
        return Err(Error::AmbiguousOrientation);
    }
    let perspective = player_perspective(snap.players[m].0.as_str());
    let ghost styles = snap.last_moves.deep_view();
    let hn: usize = if snap.last_moves.len() < 2 {
        snap.last_moves.len()
    } else {
        2
    };
    let mut highlights: Vec<(u8, u8)> = Vec::new();
    let mut h: usize = 0;
    while h < hn
        invariant
            h <= hn,
            styles == snap.last_moves.deep_view(),
            styles.len() == snap.last_moves@.len(),
            hn <= snap.last_moves.len(),
            hn <= 2,
            highlights@.len() == h,
            spec_highlights(styles, h as int) == Some(highlights@),
            forall|j: int|
                0 <= j < highlights@.len() ==> (#[trigger] highlights@[j]).0 < 8
                    && highlights@[j].1 < 8,
        decreases hn - h,
    {
        proof {
            assert(styles[h as int] == snap.last_moves@[h as int]@);
        }
        let style = chars_of(snap.last_moves[h].as_str());
        let p = match parse_style(&style) {
            Some(p) => p,
            None => {
                proof {
                    lemma_highlights_none(styles, h as int + 1, hn as int);
                }
                return Err(Error::MalformedAttribute);
            },
        };
        let row = match percent_to_cell(p.0) {
            Ok(c) => c,
            Err(_) => {
                proof {
                    lemma_highlights_none(styles, h as int + 1, hn as int);
                }
                return Err(Error::MalformedAttribute);
            },
        };
        let col = match percent_to_cell(p.1) {
            Ok(c) => c,
            Err(_) => {
                proof {
                    lemma_highlights_none(styles, h as int + 1, hn as int);
                }
                return Err(Error::MalformedAttribute);
            },
        };
        highlights.push((row, col));
        h = h + 1;
    }
    Ok(Extraction { board, perspective, highlights })
}

/// Builds a snapshot of the page markup through the HTML parser.
pub fn snapshot_of_html(html: &str) -> (snap: Snapshot)
    ensures
        snap@ == (SnapshotModel {
            has_title: title_found(html@),
            pieces: piece_attrs_of(html@),
            players: player_attrs_of(html@),
            last_moves: last_move_styles_of(html@),
        }),
{
    Snapshot {
        has_title: dom_has_title(html),
        pieces: dom_piece_attrs(html),
        players: dom_player_attrs(html),
        last_moves: dom_last_move_styles(html),
    }
}

/// Extracts the board, the perspective and the highlighted squares
/// straight from the page text.
pub fn extract_from_html(html: &str, subject: &str) -> (r: Result<Extraction, Error>)
    ensures
        ({
            let snap = SnapshotModel {
                has_title: title_found(html@),
                pieces: piece_attrs_of(html@),
                players: player_attrs_of(html@),
                last_moves: last_move_styles_of(html@),
            };
            &&& (spec_extract(snap, subject@) matches Ok(m) ==> r matches Ok(e) && e@ == m
                && e.board.wf())
            &&& (spec_extract(snap, subject@) matches Err(err) ==> r matches Err(e2) && e2
                == err)
        }),
        r matches Ok(e) ==> e.board.wf() && e.highlights@.len() <= 2 && forall|j: int|
            0 <= j < e.highlights@.len() ==> (#[trigger] e.highlights@[j]).0 < 8
                && e.highlights@[j].1 < 8,
{
    let snap = snapshot_of_html(html);
    extract(&snap, subject)
}

} // verus!
