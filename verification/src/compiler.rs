//! The front end: for now it lists the tokens of a source text.
use crate::scanner::{cursor_after, newlines, token_at};
use crate::scanner::{lemma_scan_progress, lemma_token_span};
use crate::scanner::Scanner;
use crate::text::{padded, push_bytes, push_padded, push_text};
use crate::token::{Token, TokenType};
use vstd::prelude::*;
use vstd::slice::slice_subrange;
use vstd::string::StringSliceAdditionalSpecFns;
use vstd::utf8::encode_utf8;

verus! {

/// One line of a token listing: the token's line, four wide, or a bar where
/// it is the line of the token before (`prev_line`); the number of the
/// token's category, two wide; and the token's text between single quotes.
pub open spec fn token_entry(src: Seq<u8>, token: Token, prev_line: int) -> Seq<u8> {
    (if token.line != prev_line {
        padded(token.line as nat, 4, ' ' as u8) + " ".spec_bytes()
    } else {
        "   | ".spec_bytes()
    }) + padded(token.ty.spec_code() as nat, 2, ' ' as u8) + " '".spec_bytes() + src.subrange(
        token.start as int,
        token.start + token.length,
    ) + "'\n".spec_bytes()
}

/// The listing of the tokens found in `src` from `pos` on, up to and with
/// `eof`, where the token before them was on `prev_line`.
pub open spec fn token_listing(src: Seq<u8>, pos: int, prev_line: int) -> Seq<u8>
    decreases src.len() - pos,
{
    let token = token_at(src, pos);
    if token.ty == TokenType::eof || !(0 <= pos <= src.len()) {
        token_entry(src, token, prev_line)
    } else {
        proof {
            lemma_scan_progress(src, pos);
        }
        token_entry(src, token, prev_line) + token_listing(
            src,
            cursor_after(src, pos),
            token.line as int,
        )
    }
}

/// Unfolds the listing by one token.
proof fn lemma_listing_unfold(src: Seq<u8>, pos: int, prev_line: int)
    requires
        0 <= pos <= src.len(),
    ensures
        token_listing(src, pos, prev_line) == if token_at(src, pos).ty == TokenType::eof {
            token_entry(src, token_at(src, pos), prev_line)
        } else {
            token_entry(src, token_at(src, pos), prev_line) + token_listing(
                src,
                cursor_after(src, pos),
                token_at(src, pos).line as int,
            )
        },
{
}

/// Appends the listing line of `token`.
fn push_entry(out: &mut Vec<u8>, bytes: &[u8], token: Token, prev_line: i32)
    requires
        token.start + token.length <= bytes@.len(),
        token.line >= 0,
    ensures
        final(out)@ == old(out)@ + token_entry(bytes@, token, prev_line as int),
{
    if token.line != prev_line {
        push_padded(out, token.line as u64, 4, ' ' as u8);
        push_text(out, " ");
    } else {
        push_text(out, "   | ");
    }
    push_padded(out, token.ty.code() as u64, 2, ' ' as u8);
    push_text(out, " '");
    assert(token.start + token.length <= bytes.len());
    push_bytes(out, slice_subrange(bytes, token.start, token.start + token.length));
    push_text(out, "'\n");
    assert(out@ =~= old(out)@ + token_entry(bytes@, token, prev_line as int));
}

/// The front end of the machine. It owns the scanner.
pub struct Compiler {
    scanner: Scanner,
}

impl Compiler {
    /// The bytes of the source text that was compiled last.
    pub closed spec fn source(&self) -> Seq<u8> {
        self.scanner.source()
    }

    /// Scans `codes` from its start to its end and returns the listing of
    /// its tokens, one line for each token, `eof` included.
    pub fn compile(&mut self, codes: String) -> (listing: Vec<u8>)
        requires
            newlines(encode_utf8(codes@), encode_utf8(codes@).len() as int) <= i32::MAX,
        ensures
            final(self).source() == encode_utf8(codes@),
            listing@ == token_listing(encode_utf8(codes@), 0, -1),
    {
        let ghost src = encode_utf8(codes@);
        let mut out: Vec<u8> = Vec::new();
        self.scanner.init(codes);
        let mut line: i32 = -1;
        loop
            invariant_except_break
                token_listing(src, 0, -1) == out@ + token_listing(
                    src,
                    self.scanner.cursor(),
                    line as int,
                ),
            invariant
                self.scanner.wf(),
                self.scanner.source() == src,
            ensures
                self.scanner.source() == src,
                out@ == token_listing(src, 0, -1),
            decreases src.len() - self.scanner.cursor(),
        {
            let ghost pos = self.scanner.cursor();
            let ghost before = out@;
            let ghost prev_line = line as int;
            let token = self.scanner.scan_token();
            let bytes = self.scanner.bytes();
            proof {
                assert(bytes.len() == src.len());
                lemma_scan_progress(src, pos);
                lemma_token_span(src, pos);
                lemma_listing_unfold(src, pos, line as int);
            }
            push_entry(&mut out, bytes, token, line);
            line = token.line;
            if token.ty == TokenType::eof {
                break ;
            }
            assert(before + (token_entry(src, token, prev_line) + token_listing(
                src,
                self.scanner.cursor(),
                token.line as int,
            )) =~= out@ + token_listing(src, self.scanner.cursor(), token.line as int));
        }
        out
    }
}

impl Default for Compiler {
    /// A front end that has compiled nothing yet.
    fn default() -> (compiler: Compiler)
        ensures
            compiler.source() == Seq::<u8>::empty(),
    {
        Compiler { scanner: Scanner::default() }
    }
}

} // verus!
