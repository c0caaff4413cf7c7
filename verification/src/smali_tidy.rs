//! Smali files of the usual form, in which exactly the wanted methods are replaced.
use crate::pattern::covered;
use crate::pattern::end_at;
use crate::pattern::end_of;
use crate::pattern::is_method;
use crate::pattern::known_signature;
use crate::pattern::lemma_end_of;
use crate::pattern::lemma_gap_before;
use crate::pattern::lemma_match_place;
use crate::pattern::lemma_positions;
use crate::pattern::lie_in;
use crate::pattern::lies_in;
use crate::pattern::opens_method;
use crate::pattern::replaced;
use crate::pattern::replaced_front;
use crate::pattern::Found;
use crate::smali_patch::body_line;
use crate::smali_patch::commented;
use crate::smali_patch::lemma_trim_end_keeps;
use crate::smali_patch::new_lines;
use crate::smali_patch::new_method;
use crate::smali_patch::old_lines;
use crate::smali_patch::outdented;
use crate::smali_patch::MethodPatch;
use crate::text::contains_text;
use crate::text::join;
use crate::text::lemma_join_front;
use crate::text::lemma_parts;
use crate::text::lemma_split_on_pieces;
use crate::text::lemma_split_on_stands;
use crate::text::occurs_at;
use crate::text::part;
use crate::text::split_on;
use crate::text::trim_end;
use crate::text::white;
use vstd::prelude::*;
use vstd::utf8::encode_utf8;

verus! {

// ---------------------------------------------------------------------------------------------
// Model
// ---------------------------------------------------------------------------------------------

/// A piece of a Smali file: a method that a patch may be for, or anything else.
pub enum Piece {
    Method { opening: Seq<char>, body: Seq<char> },
    Other { text: Seq<char> },
}

/// The text of a piece.
pub open spec fn piece_text(piece: Piece) -> Seq<char> {
    match piece {
        Piece::Method { opening, body } => opening + seq!['\n'] + body + "\n.end method"@,
        Piece::Other { text } => text,
    }
}

/// The text of a file that is made of pieces.
pub open spec fn whole_text(pieces: Seq<Piece>) -> Seq<char>
    decreases pieces.len(),
{
    if pieces.len() == 0 {
        Seq::empty()
    } else {
        whole_text(pieces.drop_last()) + piece_text(pieces.last())
    }
}

/// `s` is the line that opens a public method with the given signature.
pub open spec fn is_opening(s: Seq<char>, signature: Seq<char>) -> bool {
    ||| s == ".method public "@ + signature
    ||| s == ".method public final "@ + signature
}

/// `s` is the line that opens a method that some patch is for.
pub open spec fn known_opening(s: Seq<char>) -> bool {
    exists|signature: Seq<char>| known_signature(signature) && #[trigger] is_opening(s, signature)
}

/// No method that some patch is for is opened in `s`.
pub open spec fn quiet(s: Seq<char>) -> bool {
    forall|opening: Seq<char>, i: int|
        known_opening(opening) ==> !#[trigger] occurs_at(s, opening, i)
}

/// The body of a method: not empty, and neither closed nor opening another method.
pub open spec fn tidy_body(body: Seq<char>) -> bool {
    &&& body.len() > 0
    &&& quiet(body)
    &&& forall|k: int|
        0 <= k < body.len() ==> !occurs_at(body + "\n.end method"@, "\n.end method"@, k)
}

/// A piece of a file of the usual form. Methods begin at the start of a line.
pub open spec fn tidy_piece(piece: Piece, is_last: bool) -> bool {
    match piece {
        Piece::Method { opening, body } => known_opening(opening) && tidy_body(body),
        Piece::Other { text } => {
            &&& quiet(text)
            &&& is_last || text.len() == 0 || text.last() == '\n'
        },
    }
}

/// The pieces of a file of the usual form.
pub open spec fn tidy(pieces: Seq<Piece>) -> bool {
    forall|u: int| 0 <= u < pieces.len() ==> tidy_piece(#[trigger] pieces[u], u == pieces.len() - 1)
}

/// `text` has the usual form and is made of the given pieces.
pub open spec fn fits(pieces: Seq<Piece>, text: Seq<char>) -> bool {
    tidy(pieces) && whole_text(pieces) == text
}

/// What a patch makes of a piece: a method that it is for gets a new body, all else stays.
pub open spec fn new_piece(piece: Piece, method: MethodPatch) -> Piece {
    match piece {
        Piece::Method { opening, body } => if is_opening(opening, method.signature) {
            Piece::Method {
                opening,
                body: join(new_lines(method.lines) + old_lines(body), '\n'),
            }
        } else {
            piece
        },
        Piece::Other { .. } => piece,
    }
}

/// What a patch makes of the pieces of a file.
pub open spec fn new_pieces(pieces: Seq<Piece>, method: MethodPatch) -> Seq<Piece> {
    Seq::new(pieces.len(), |u: int| new_piece(pieces[u], method))
}

/// What one patch after the other makes of the pieces of a file.
pub open spec fn all_new_pieces(pieces: Seq<Piece>, methods: Seq<MethodPatch>) -> Seq<Piece>
    decreases methods.len(),
{
    if methods.len() == 0 {
        pieces
    } else {
        new_pieces(all_new_pieces(pieces, methods.drop_last()), methods.last())
    }
}

// ---------------------------------------------------------------------------------------------
// Openings
// ---------------------------------------------------------------------------------------------

proof fn lemma_known_signature(signature: Seq<char>)
    requires
        known_signature(signature),
    ensures
        !signature.contains('.'),
        !signature.contains('\n'),
{
    reveal_strlit("checkClientTrusted([Ljava/security/cert/X509Certificate;Ljava/lang/String;)V");
    reveal_strlit("checkServerTrusted([Ljava/security/cert/X509Certificate;Ljava/lang/String;)V");
    reveal_strlit("getAcceptedIssuers()[Ljava/security/cert/X509Certificate;");
    reveal_strlit("verify(Ljava/lang/String;Ljavax/net/ssl/SSLSession;)Z");
    reveal_strlit("check(Ljava/lang/String;Ljava/util/List;)V");
    reveal_strlit("check$okhttp(Ljava/lang/String;Lkotlin/jvm/functions/Function0;)V");
}

/// An opening is one line, with a dot at its start and nowhere else.
proof fn lemma_opening(opening: Seq<char>)
    requires
        known_opening(opening),
    ensures
        opening.len() > 1,
        opening[0] == '.',
        opening[1] == 'm',
        forall|k: int| 0 < k < opening.len() ==> #[trigger] opening[k] != '.',
        forall|k: int| 0 <= k < opening.len() ==> #[trigger] opening[k] != '\n',
{
    let signature = choose|signature: Seq<char>|
        known_signature(signature) && is_opening(opening, signature);
    lemma_known_signature(signature);
    reveal_strlit(".method public ");
    reveal_strlit(".method public final ");
    let n = opening.len() - signature.len();
    assert forall|k: int| 0 < k < opening.len() implies #[trigger] opening[k] != '.' by {
        if k >= n {
            assert(opening[k] == signature[k - n]);
        }
    }
    assert forall|k: int| 0 <= k < opening.len() implies #[trigger] opening[k] != '\n' by {
        if k >= n {
            assert(opening[k] == signature[k - n]);
        }
    }
}

/// The characters of an occurrence.
proof fn lemma_occurs(text: Seq<char>, what: Seq<char>, i: int)
    requires
        occurs_at(text, what, i),
    ensures
        forall|k: int| i <= k < i + what.len() ==> #[trigger] text[k] == what[k - i],
        forall|k: int| 0 <= k < what.len() ==> text[i + k] == #[trigger] what[k],
{
    assert forall|k: int| i <= k < i + what.len() implies #[trigger] text[k] == what[k - i] by {
        assert(text.subrange(i, i + what.len())[k - i] == text[k]);
    }
}

/// Methods are opened only where pieces are methods: at their start, and by their own openings.
proof fn lemma_opened_at_start(
    front: Seq<char>,
    piece: Piece,
    back: Seq<char>,
    is_last: bool,
    opening: Seq<char>,
    i: int,
)
    requires
        tidy_piece(piece, is_last),
        is_last ==> back.len() == 0,
        known_opening(opening),
        occurs_at(front + piece_text(piece) + back, opening + seq!['\n'], i),
        front.len() <= i < front.len() + piece_text(piece).len(),
    ensures
        piece is Method,
        i == front.len(),
        piece->opening == opening,
{
    let text = front + piece_text(piece) + back;
    let n = opening.len() as int;
    let at = front.len() as int;
    lemma_opening(opening);
    lemma_occurs(text, opening + seq!['\n'], i);
    assert((opening + seq!['\n'])[n] == '\n');
    assert forall|k: int| 0 <= k < n implies text[i + k] == #[trigger] opening[k] by {
        assert((opening + seq!['\n'])[k] == opening[k]);
    }
    match piece {
        Piece::Other { text: s } => {
            let end = at + s.len();
            if i + n <= end {
                assert(s.subrange(i - at, i - at + n) == opening) by {
                    assert forall|k: int| 0 <= k < n implies s[i - at + k] == opening[k] by {
                        assert(text[i + k] == s[i - at + k]);
                    }
                }
                assert(occurs_at(s, opening, i - at));
                assert(false);
            } else {
                assert(s.last() == '\n');
                assert(text[end - 1] == s.last());
                assert(text[i + (end - 1 - i)] == opening[end - 1 - i]);
                assert(false);
            }
        },
        Piece::Method { opening: own, body } => {
            reveal_strlit("\n.end method");
            lemma_opening(own);
            let b = at + own.len() + 1;
            let e = b + body.len();
            assert(text[b - 1] == '\n');
            assert(text[e] == '\n');
            assert(text[i] == '.');
            if i == at {
                if n < own.len() {
                    assert(text[i + n] == own[n]);
                    assert(false);
                }
                if own.len() < n {
                    assert(text[i + own.len()] == opening[own.len() as int]);
                    assert(false);
                }
                assert(own == opening) by {
                    assert forall|k: int| 0 <= k < n implies own[k] == opening[k] by {
                        assert(text[i + k] == own[k]);
                    }
                }
            } else if i < b - 1 {
                assert(text[i] == own[i - at]);
                assert(false);
            } else if i == b - 1 {
                assert(false);
            } else if i < e {
                if i + n <= e {
                    assert(body.subrange(i - b, i - b + n) == opening) by {
                        assert forall|k: int| 0 <= k < n implies body[i - b + k] == opening[k] by {
                            assert(text[i + k] == body[i - b + k]);
                        }
                    }
                    assert(occurs_at(body, opening, i - b));
                    assert(false);
                } else {
                    assert(text[i + (e - i)] == opening[e - i]);
                    assert(false);
                }
            } else {
                assert(text[i] == "\n.end method"@[i - e]);
                assert(i == e + 1);
                assert(text[i + 1] == "\n.end method"@[2]);
                assert(text[i + 1] == opening[1]);
                assert(false);
            }
        },
    }
}

// ---------------------------------------------------------------------------------------------
// Methods in a text
// ---------------------------------------------------------------------------------------------

/// A method that is found where a piece is one is that piece.
proof fn lemma_same_method(
    front: Seq<char>,
    own: Seq<char>,
    body: Seq<char>,
    back: Seq<char>,
    m: Found,
    signature: Seq<char>,
)
    requires
        known_opening(own),
        tidy_body(body),
        known_signature(signature),
        ({
            let text = front + piece_text(Piece::Method { opening: own, body }) + back;
            &&& lies_in(m, text)
            &&& is_method(m, text, signature)
            &&& part(text, 0, m.start).len() == front.len()
        }),
    ensures
        m.groups[1]->0 == own,
        m.groups[2]->0 == body,
        part(
            front + piece_text(Piece::Method { opening: own, body }) + back,
            m.start,
            m.end,
        ) == piece_text(Piece::Method { opening: own, body }),
{
    reveal_strlit("\n.end method");
    let closing = "\n.end method"@;
    let piece = Piece::Method { opening: own, body };
    let text = front + piece_text(piece) + back;
    let at = front.len() as int;
    let g1 = m.groups[1]->0;
    let g2 = m.groups[2]->0;
    let found = part(text, m.start, m.end);
    lemma_parts(text, m.start, m.end);
    assert(found == text.subrange(at, at + found.len()));
    assert(is_opening(g1, signature));
    assert(known_opening(g1));
    assert(text.subrange(at, at + g1.len() + 1) == g1 + seq!['\n']) by {
        assert(found.subrange(0, g1.len() + 1int) == g1 + seq!['\n']);
        assert(text.subrange(at, at + g1.len() + 1) == found.subrange(0, g1.len() + 1int));
    }
    assert(occurs_at(text, g1 + seq!['\n'], at));
    lemma_opened_at_start(front, piece, back, false, g1, at);
    assert(g1 == own);
    let b = at + own.len() + 1;
    let n1 = body.len() as int;
    let n2 = g2.len() as int;
    if n2 < n1 {
        let tail = body + closing;
        assert(tail.subrange(n2, n2 + closing.len()) == closing) by {
            assert forall|k: int| 0 <= k < closing.len() implies tail[n2 + k] == closing[k] by {
                assert(tail[n2 + k] == text[b + n2 + k]);
                assert(found[own.len() + 1 + n2 + k] == closing[k]);
            }
        }
        assert(occurs_at(tail, closing, n2));
        assert(false);
    }
    if n1 < n2 {
        let tail = g2 + closing;
        assert(tail.subrange(n1, n1 + closing.len()) == closing) by {
            assert forall|k: int| 0 <= k < closing.len() implies tail[n1 + k] == closing[k] by {
                assert(text[b + n1 + k] == closing[k]);
                assert(found[own.len() + 1 + n1 + k] == tail[n1 + k]);
            }
        }
        assert(occurs_at(tail, closing, n1));
        assert(false);
    }
    assert(g2 == body) by {
        assert forall|k: int| 0 <= k < n1 implies g2[k] == body[k] by {
            assert(text[b + k] == body[k]);
            assert(found[own.len() + 1 + k] == g2[k]);
        }
    }
}

/// A piece that is a method with the given signature is one that has to be found.
proof fn lemma_method_is_open(
    front: Seq<char>,
    own: Seq<char>,
    body: Seq<char>,
    back: Seq<char>,
    signature: Seq<char>,
)
    requires
        is_opening(own, signature),
        body.len() > 0,
    ensures
        opens_method(
            front + piece_text(Piece::Method { opening: own, body }) + back,
            signature,
            front.len() as int,
        ),
{
    let text = front + piece_text(Piece::Method { opening: own, body }) + back;
    let at = front.len() as int;
    let end = at + own.len() + 1 + body.len();
    assert(text.subrange(at, at + (own + seq!['\n']).len()) == own + seq!['\n']);
    assert(occurs_at(text, own + seq!['\n'], at));
    assert(text.subrange(end, end + "\n.end method"@.len()) == "\n.end method"@);
    assert(occurs_at(text, "\n.end method"@, end));
}

// ---------------------------------------------------------------------------------------------
// Pieces of a text
// ---------------------------------------------------------------------------------------------

proof fn lemma_whole_add(a: Seq<Piece>, b: Seq<Piece>)
    ensures
        whole_text(a + b) == whole_text(a) + whole_text(b),
    decreases b.len(),
{
    if b.len() == 0 {
        assert(a + b == a);
    } else {
        assert((a + b).drop_last() == a + b.drop_last());
        assert((a + b).last() == b.last());
        lemma_whole_add(a, b.drop_last());
    }
}

/// The text of a file around one of its pieces.
proof fn lemma_whole_split(pieces: Seq<Piece>, u: int)
    requires
        0 <= u < pieces.len(),
    ensures
        whole_text(pieces) == whole_text(pieces.take(u)) + piece_text(pieces[u]) + whole_text(
            pieces.skip(u + 1),
        ),
        whole_text(pieces.take(u + 1)) == whole_text(pieces.take(u)) + piece_text(pieces[u]),
{
    assert(pieces.take(u + 1).drop_last() == pieces.take(u));
    assert(pieces == pieces.take(u + 1) + pieces.skip(u + 1));
    lemma_whole_add(pieces.take(u + 1), pieces.skip(u + 1));
}

/// The methods of one signature were found in `text`, and none was missed.
pub open spec fn are_all_methods(text: Seq<char>, list: Seq<Found>, signature: Seq<char>) -> bool {
    &&& lie_in(list, text)
    &&& forall|k: int| 0 <= k < list.len() ==> is_method(#[trigger] list[k], text, signature)
    &&& forall|i: int| opens_method(text, signature, i) ==> covered(text, list, i)
}

/// The new texts of the methods in a list.
pub open spec fn new_methods(list: Seq<Found>, lines: Seq<Seq<char>>) -> Seq<Seq<char>> {
    Seq::new(list.len(), |i: int| new_method(list[i], lines))
}

/// A method that is found has a text.
proof fn lemma_match_len(text: Seq<char>, m: Found, signature: Seq<char>)
    requires
        lies_in(m, text),
        is_method(m, text, signature),
    ensures
        part(text, 0, m.end).len() == part(text, 0, m.start).len() + part(text, m.start, m.end).len(),
        part(text, m.start, m.end).len() > 0,
        part(text, 0, m.end).len() <= text.len(),
        part(text, m.start, m.end) == text.subrange(
            part(text, 0, m.start).len() as int,
            part(text, 0, m.end).len() as int,
        ),
{
    lemma_match_place(text, m);
}

/// The method at the start of a piece is the next match.
proof fn lemma_next_match(
    text: Seq<char>,
    list: Seq<Found>,
    signature: Seq<char>,
    k: int,
    at: int,
)
    requires
        are_all_methods(text, list, signature),
        0 <= k <= list.len(),
        end_at(text, list, k) <= at,
        k < list.len() ==> part(text, 0, list[k].start).len() >= at,
        opens_method(text, signature, at),
    ensures
        k < list.len(),
        part(text, 0, list[k].start).len() == at,
{
    assert(covered(text, list, at));
    let j = choose|j: int|
        0 <= j < list.len() && part(text, 0, (#[trigger] list[j]).start).len() <= at < part(
            text,
            0,
            list[j].end,
        ).len();
    assert(lies_in(list[j], text));
    if j < k {
        if j < k - 1 {
            lemma_positions(text, list, j, k - 1);
            assert(lies_in(list[k - 1], text));
            assert(is_method(list[k - 1], text, signature));
            lemma_match_len(text, list[k - 1], signature);
        }
        assert(false);
    }
    if k < j {
        lemma_positions(text, list, k, j);
        assert(lies_in(list[k], text));
        assert(is_method(list[k], text, signature));
        lemma_match_len(text, list[k], signature);
        assert(false);
    }
}

/// Replacing the methods that were found in the first `u` pieces gives these pieces anew. The result
/// tells how many they are.
#[verifier::rlimit(60)]
proof fn lemma_walk(pieces: Seq<Piece>, list: Seq<Found>, method: MethodPatch, u: int) -> (k: int)
    requires
        tidy(pieces),
        known_signature(method.signature),
        are_all_methods(whole_text(pieces), list, method.signature),
        0 <= u <= pieces.len(),
    ensures
        0 <= k <= list.len(),
        ({
            let text = whole_text(pieces);
            let at = whole_text(pieces.take(u)).len() as int;
            &&& 0 <= end_at(text, list, k) <= at <= text.len()
            &&& k < list.len() ==> part(text, 0, list[k].start).len() >= at
            &&& replaced_front(text, list, new_methods(list, method.lines), k) + text.subrange(
                end_at(text, list, k),
                at,
            ) == whole_text(new_pieces(pieces, method).take(u))
        }),
    decreases u,
{
    let text = whole_text(pieces);
    let with = new_methods(list, method.lines);
    let new = new_pieces(pieces, method);
    if u == 0 {
        assert(pieces.take(0) == Seq::<Piece>::empty());
        assert(new.take(0) == Seq::<Piece>::empty());
        assert(encode_utf8(text).subrange(0, 0) == Seq::<u8>::empty());
        assert(text.subrange(0, 0) == Seq::<char>::empty());
        0
    } else {
        let k = lemma_walk(pieces, list, method, u - 1);
        let piece = pieces[u - 1];
        let front = whole_text(pieces.take(u - 1));
        let back = whole_text(pieces.skip(u));
        let at = front.len() as int;
        let next = at + piece_text(piece).len();
        let start = end_at(text, list, k);
        let done = replaced_front(text, list, with, k);
        lemma_whole_split(pieces, u - 1);
        lemma_whole_split(new, u - 1);
        assert(new[u - 1] == new_piece(piece, method));
        assert(text == front + piece_text(piece) + back);
        assert(text.subrange(at, next) == piece_text(piece));
        assert(tidy_piece(piece, u - 1 == pieces.len() - 1));
        if u == pieces.len() {
            assert(pieces.skip(u) == Seq::<Piece>::empty());
        }
        let hit = match piece {
            Piece::Method { opening, body } => is_opening(opening, method.signature),
            Piece::Other { .. } => false,
        };
        if hit {
            let own = piece->opening;
            let body = piece->body;
            lemma_method_is_open(front, own, body, back, method.signature);
            lemma_next_match(text, list, method.signature, k, at);
            let m = list[k];
            assert(lies_in(m, text));
            assert(is_method(m, text, method.signature));
            lemma_same_method(front, own, body, back, m, method.signature);
            lemma_match_len(text, m, method.signature);
            lemma_gap_before(text, list, k);
            assert(end_at(text, list, k + 1) == next);
            if k + 1 < list.len() {
                lemma_positions(text, list, k, k + 1);
            }
            assert(with[k] == new_method(m, method.lines));
            reveal_strlit(".end method");
            reveal_strlit("\n.end method");
            assert(with[k] == piece_text(new[u - 1]));
            assert(text.subrange(next, next) == Seq::<char>::empty());
            assert(replaced_front(text, list, with, k + 1) == done + text.subrange(start, at)
                + with[k]);
            k + 1
        } else {
            if k < list.len() && part(text, 0, list[k].start).len() < next {
                let m = list[k];
                let i = part(text, 0, m.start).len() as int;
                assert(lies_in(m, text));
                assert(is_method(m, text, method.signature));
                lemma_match_len(text, m, method.signature);
                let g1 = m.groups[1]->0;
                let found = part(text, m.start, m.end);
                assert(is_opening(g1, method.signature));
                assert(known_opening(g1));
                assert(text.subrange(i, i + (g1 + seq!['\n']).len()) == g1 + seq!['\n']) by {
                    assert(found.subrange(0, g1.len() + 1int) == g1 + seq!['\n']);
                    assert(text.subrange(i, i + g1.len() + 1) == found.subrange(0, g1.len() + 1int));
                }
                assert(occurs_at(text, g1 + seq!['\n'], i));
                lemma_opened_at_start(front, piece, back, u == pieces.len(), g1, i);
                assert(false);
            }
            assert(text.subrange(start, next) == text.subrange(start, at) + piece_text(piece));
            assert(done + text.subrange(start, next) == done + text.subrange(start, at)
                + piece_text(piece));
            k
        }
    }
}

/// What a patch makes of a file of the usual form: the methods that it is for get new bodies, and all
/// else stays.
pub proof fn lemma_tidy_replaced(pieces: Seq<Piece>, list: Seq<Found>, method: MethodPatch)
    requires
        tidy(pieces),
        known_signature(method.signature),
        are_all_methods(whole_text(pieces), list, method.signature),
    ensures
        replaced(whole_text(pieces), list, new_methods(list, method.lines)) == whole_text(
            new_pieces(pieces, method),
        ),
{
    let text = whole_text(pieces);
    let n = pieces.len() as int;
    let k = lemma_walk(pieces, list, method, n);
    assert(pieces.take(n) == pieces);
    assert(new_pieces(pieces, method).take(n) == new_pieces(pieces, method));
    if k < list.len() {
        assert(lies_in(list[k], text));
        assert(is_method(list[k], text, method.signature));
        lemma_match_len(text, list[k], method.signature);
    }
    lemma_end_of(text, list, k);
    let total = encode_utf8(text).len() as int;
    vstd::utf8::encode_utf8_valid_utf8(text);
    vstd::utf8::is_char_boundary_start_end_of_seq(encode_utf8(text));
    lemma_parts(text, end_of(list, k), total);
    assert(encode_utf8(text).subrange(total, total) == Seq::<u8>::empty());
    let front = part(text, 0, end_of(list, k));
    let rest = part(text, end_of(list, k), total);
    assert(text == front + rest);
    assert(rest == text.subrange(front.len() as int, text.len() as int));
}

// ---------------------------------------------------------------------------------------------
// New bodies
// ---------------------------------------------------------------------------------------------

/// No dot is followed by an `m`.
pub open spec fn no_dot_m(s: Seq<char>) -> bool {
    forall|k: int| 0 <= k < s.len() - 1 && #[trigger] s[k] == '.' ==> s[k + 1] != 'm'
}

/// A text in which no dot is followed by an `m` opens no method.
proof fn lemma_no_dot_m(s: Seq<char>)
    requires
        no_dot_m(s),
    ensures
        quiet(s),
{
    assert forall|opening: Seq<char>, i: int| known_opening(opening) implies !#[trigger] occurs_at(
        s,
        opening,
        i,
    ) by {
        if occurs_at(s, opening, i) {
            lemma_opening(opening);
            lemma_occurs(s, opening, i);
            assert(s[i] == '.' && s[i + 1] == opening[1]);
        }
    }
}

/// What opens no method opens none where it is a part of something without dots before it.
proof fn lemma_quiet_after(front: Seq<char>, s: Seq<char>)
    requires
        !front.contains('.'),
        quiet(s),
    ensures
        quiet(front + s),
{
    let all = front + s;
    assert forall|opening: Seq<char>, i: int| known_opening(opening) implies !#[trigger] occurs_at(
        all,
        opening,
        i,
    ) by {
        if occurs_at(all, opening, i) {
            lemma_opening(opening);
            lemma_occurs(all, opening, i);
            let n = front.len() as int;
            assert(all[i] == opening[0]);
            if i < n {
                assert(front[i] == '.');
            } else {
                assert(s.subrange(i - n, i - n + opening.len()) == opening) by {
                    assert(all.subrange(i, i + opening.len()) == s.subrange(
                        i - n,
                        i - n + opening.len(),
                    ));
                }
                assert(occurs_at(s, opening, i - n));
            }
        }
    }
}

/// What stands in a text that opens no method opens none.
proof fn lemma_quiet_within(s: Seq<char>, what: Seq<char>)
    requires
        quiet(s),
        contains_text(s, what),
    ensures
        quiet(what),
{
    let j = choose|j: int| occurs_at(s, what, j);
    assert forall|opening: Seq<char>, i: int| known_opening(opening) implies !#[trigger] occurs_at(
        what,
        opening,
        i,
    ) by {
        if occurs_at(what, opening, i) {
            assert(what == s.subrange(j, j + what.len()));
            assert(s.subrange(j + i, j + i + opening.len()) == what.subrange(
                i,
                i + opening.len(),
            ));
            assert(occurs_at(s, opening, j + i));
        }
    }
}

/// White space at the end is cut off.
proof fn lemma_trim_end_front(s: Seq<char>)
    ensures
        trim_end(s).len() <= s.len(),
        trim_end(s) == s.take(trim_end(s).len() as int),
    decreases s.len(),
{
    if s.len() > 0 && white(s.last()) {
        lemma_trim_end_front(s.drop_last());
        assert(trim_end(s) == s.take(trim_end(s).len() as int));
    } else {
        assert(s == s.take(s.len() as int));
    }
}

/// A line that can stand in a body: one line, which neither closes nor opens a method.
pub open spec fn tidy_line(s: Seq<char>) -> bool {
    &&& quiet(s)
    &&& !s.contains('\n')
    &&& s.len() > 0 ==> s[0] != '.'
}

/// Indentation makes a line one that can stand in a body.
proof fn lemma_body_line_is_tidy(line: Seq<char>)
    requires
        quiet(line),
        !line.contains('\n'),
    ensures
        tidy_line(body_line(line)),
{
    reveal_strlit("    ");
    let all = "    "@ + line;
    let s = body_line(line);
    lemma_quiet_after("    "@, line);
    lemma_trim_end_front(all);
    assert(all.subrange(0, s.len() as int) == s);
    assert(occurs_at(all, s, 0));
    lemma_quiet_within(all, s);
    assert forall|k: int| 0 <= k < s.len() implies s[k] != '\n' by {
        assert(s[k] == all[k]);
        if k >= 4 {
            assert(all[k] == line[k - 4]);
        }
    }
}

/// So does turning a line of the old body into a comment.
proof fn lemma_commented_is_tidy(line: Seq<char>)
    requires
        quiet(line),
        !line.contains('\n'),
    ensures
        tidy_line(commented(line)),
{
    reveal_strlit("    ");
    reveal_strlit("# ");
    let rest = outdented(line);
    assert(contains_text(line, rest)) by {
        let i = line.len() - rest.len();
        assert(line.subrange(i, i + rest.len()) == rest);
        assert(occurs_at(line, rest, i));
    }
    lemma_quiet_within(line, rest);
    lemma_quiet_after("# "@, rest);
    let text = "# "@ + rest;
    assert forall|k: int| 0 <= k < text.len() implies text[k] != '\n' by {
        if k >= 2 {
            assert(text[k] == rest[k - 2]);
            assert(rest[k - 2] == line[line.len() - rest.len() + k - 2]);
        }
    }
    lemma_body_line_is_tidy(text);
}

/// Joined lines open no method, and none of them begins with a dot.
proof fn lemma_join_is_tidy(lines: Seq<Seq<char>>)
    requires
        forall|i: int| 0 <= i < lines.len() ==> tidy_line(#[trigger] lines[i]),
    ensures
        quiet(join(lines, '\n')),
        forall|k: int|
            0 <= k < join(lines, '\n').len() - 1 && #[trigger] join(lines, '\n')[k] == '\n' ==> join(
                lines,
                '\n',
            )[k + 1] != '.',
    decreases lines.len(),
{
    let all = join(lines, '\n');
    if lines.len() == 0 {
        lemma_no_dot_m(all);
    } else if lines.len() == 1 {
        assert(tidy_line(lines[0]));
    } else {
        let front = join(lines.drop_last(), '\n');
        let last = lines.last();
        assert forall|i: int| 0 <= i < lines.drop_last().len() implies tidy_line(
            #[trigger] lines.drop_last()[i],
        ) by {
            assert(tidy_line(lines[i]));
        }
        lemma_join_is_tidy(lines.drop_last());
        assert(tidy_line(lines[lines.len() - 1]));
        let n = front.len() as int;
        assert(all == front.push('\n') + last);
        assert(all[n] == '\n');
        assert forall|opening: Seq<char>, i: int| known_opening(opening) implies !#[trigger] occurs_at(
            all,
            opening,
            i,
        ) by {
            if occurs_at(all, opening, i) {
                lemma_opening(opening);
                lemma_occurs(all, opening, i);
                if i + opening.len() <= n {
                    assert(front.subrange(i, i + opening.len()) == all.subrange(
                        i,
                        i + opening.len(),
                    ));
                    assert(occurs_at(front, opening, i));
                } else if i <= n {
                    assert(all[i + (n - i)] == opening[n - i]);
                } else {
                    let j = i - n - 1;
                    assert(last.subrange(j, j + opening.len()) == all.subrange(
                        i,
                        i + opening.len(),
                    ));
                    assert(occurs_at(last, opening, j));
                }
            }
        }
        assert forall|k: int| 0 <= k < all.len() - 1 && #[trigger] all[k] == '\n' implies all[k + 1]
            != '.' by {
            if k < n - 1 {
                assert(front[k] == '\n');
                assert(front[k + 1] == all[k + 1]);
            } else if k == n {
                assert(all[k + 1] == last[0]);
            } else if k > n {
                assert(all[k] == last[k - n - 1]);
            }
        }
    }
}

/// The lines of a new body may stand in a body.
pub open spec fn tidy_lines(lines: Seq<Seq<char>>) -> bool {
    forall|i: int| 0 <= i < lines.len() ==> no_dot_m(#[trigger] lines[i]) && !lines[i].contains('\n')
}

/// A new body is one of the usual form.
proof fn lemma_new_body_is_tidy(lines: Seq<Seq<char>>, body: Seq<char>)
    requires
        tidy_lines(lines),
        tidy_body(body),
    ensures
        tidy_body(join(new_lines(lines) + old_lines(body), '\n')),
{
    let all = new_lines(lines) + old_lines(body);
    let n = new_lines(lines).len() as int;
    assert(n == lines.len() + 4);
    assert forall|i: int| 0 <= i < all.len() implies tidy_line(#[trigger] all[i]) by {
        if i == 0 {
            reveal_strlit("# inserted by apk-mitm to disable certificate pinning");
            lemma_no_dot_m("# inserted by apk-mitm to disable certificate pinning"@);
            lemma_body_line_is_tidy("# inserted by apk-mitm to disable certificate pinning"@);
        } else if i <= lines.len() {
            assert(all[i] == body_line(lines[i - 1]));
            lemma_no_dot_m(lines[i - 1]);
            lemma_body_line_is_tidy(lines[i - 1]);
        } else if i == n - 3 {
            reveal_strlit("");
            lemma_no_dot_m(""@);
            lemma_body_line_is_tidy(""@);
        } else if i == n - 2 {
            reveal_strlit("# commented out by apk-mitm to disable old method body");
            lemma_no_dot_m("# commented out by apk-mitm to disable old method body"@);
            lemma_body_line_is_tidy("# commented out by apk-mitm to disable old method body"@);
        } else if i == n - 1 {
            reveal_strlit("# ");
            lemma_no_dot_m("# "@);
            lemma_body_line_is_tidy("# "@);
        } else {
            let old = split_on(body, '\n');
            assert(all[i] == commented(old[i - n]));
            lemma_split_on_pieces(body, '\n', i - n);
            lemma_split_on_stands(body, '\n', i - n);
            lemma_quiet_within(body, old[i - n]);
            lemma_commented_is_tidy(old[i - n]);
        }
    }
    lemma_join_is_tidy(all);
    let new = join(all, '\n');
    lemma_join_front(all, '\n');
    assert(all[0].len() > 0) by {
        reveal_strlit("    ");
        reveal_strlit("# inserted by apk-mitm to disable certificate pinning");
        let whole = "    "@ + "# inserted by apk-mitm to disable certificate pinning"@;
        lemma_trim_end_keeps(whole, Seq::empty());
        assert(whole + Seq::<char>::empty() == whole);
    }
    reveal_strlit("\n.end method");
    let closing = "\n.end method"@;
    assert forall|k: int| 0 <= k < new.len() implies !occurs_at(new + closing, closing, k) by {
        if occurs_at(new + closing, closing, k) {
            lemma_occurs(new + closing, closing, k);
            assert((new + closing)[k] == new[k]);
            assert((new + closing)[k + 1] == closing[1]);
            if k + 1 < new.len() {
                assert((new + closing)[k + 1] == new[k + 1]);
            } else {
                assert((new + closing)[k + 1] == closing[0]);
            }
        }
    }
}

/// A patch makes a file of the usual form of one.
pub proof fn lemma_tidy_kept(pieces: Seq<Piece>, method: MethodPatch)
    requires
        tidy(pieces),
        tidy_lines(method.lines),
    ensures
        tidy(new_pieces(pieces, method)),
{
    let new = new_pieces(pieces, method);
    assert forall|u: int| 0 <= u < new.len() implies tidy_piece(#[trigger] new[u], u == new.len() - 1) by {
        assert(tidy_piece(pieces[u], u == pieces.len() - 1));
        if let Piece::Method { opening, body } = pieces[u] {
            if is_opening(opening, method.signature) {
                lemma_new_body_is_tidy(method.lines, body);
            }
        }
    }
}

} // verus!
