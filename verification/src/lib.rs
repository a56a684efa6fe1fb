//! A normal-order evaluator for the untyped lambda calculus, implemented as
//! an interaction-net reduction engine.
//!
//! A lambda term is encoded into a graph of three-port agents stored in a
//! flat array of 32-bit cells, the graph is rewritten in place until no
//! active pairs remain, and the result is read back as a lambda term.
//! Parsing and printing of the surface syntax are the work of an external
//! collaborator; everything between them is verified.

use vstd::prelude::*;

pub mod ast;
pub mod decode;
pub mod encode;
pub mod net;
pub mod rules;
pub mod simple_semaphore;
pub mod surface;
pub mod walker;

verus! {

/// The whole pipeline as one function of the input text, through the names
/// for the outside parser and printer: `None` exactly when some stage
/// refuses — the text is not accepted, its term is not one-based, not
/// closed, or too large, or the readback of the quiesced net overruns its
/// budget or cannot be reprinted — and otherwise the walk's counters and
/// the printed form of the one-indexed decoded result.
pub open spec fn pipeline_spec(code: Seq<char>) -> Option<(net::Stats, Seq<char>)> {
    if !surface::parse_ok(code) {
        Option::None
    } else {
        match ast::dec_indices(surface::parsed_of(code)) {
            Option::None => Option::None,
            Option::Some(t) => {
                if !ast::closed_under(t, 0) || ast::term_size(t) > ast::SIZE_LIMIT {
                    Option::None
                } else {
                    let e = encode::encode_spec(
                        seq![0u32, 1u32, 2u32, 0u32],
                        1,
                        Seq::<u32>::empty(),
                        t,
                    );
                    let n0 = net::linked(e.nodes, 0, e.port);
                    let w = walker::walk_run(
                        (walker::Walk {
                            nodes: n0,
                            reuse: Seq::<u32>::empty(),
                            next: n0[0],
                            prev: 0,
                            back: 0,
                            warp: Seq::<u32>::empty(),
                            loops: 0,
                            rules: 0,
                        }),
                        u32::MAX,
                        u32::MAX as nat,
                    );
                    match decode::decode_spec(
                        w.nodes,
                        Seq::new((w.nodes.len() as int / 4) as nat, |i: int| 0u32),
                        0,
                        Seq::<u32>::empty(),
                        0,
                        decode::DECODE_FUEL as nat,
                    ) {
                        Option::None => Option::None,
                        Option::Some(d) => match ast::inc_indices(d.term) {
                            Option::None => Option::None,
                            Option::Some(one) => Option::Some(
                                (
                                    net::Stats {
                                        loops: w.loops,
                                        rules: w.rules,
                                        betas: 0,
                                        dupls: 0,
                                        annis: 0,
                                    },
                                    surface::shown_of(one),
                                ),
                            ),
                        },
                    }
                }
            },
        }
    }
}

/// Reduce a lambda program given in classic surface syntax: parse it through
/// the external parser, encode the closed term into a net, rewrite until no
/// active pair remains, and print the decoded result — exactly
/// `pipeline_spec` of the input text.
///
/// All failures are reported as `Err`: text the parser refuses (with the
/// parser's own message), a term whose indices are not one-based, a term
/// with an unbound variable, a term too large for the encoder, and a net
/// whose readback exceeds its budget or cannot be reprinted.
#[verifier::rlimit(100)]
#[verifier::spinoff_prover]
pub fn reduce(code: &str) -> (r: Result<(net::Stats, String), String>)
    ensures
        r is Ok <==> pipeline_spec(code@) is Some,
        r is Ok ==> r->Ok_0.0 == pipeline_spec(code@)->Some_0.0,
        r is Ok ==> r->Ok_0.1@ == pipeline_spec(code@)->Some_0.1,
{
    let raw = match surface::parse_ext(code) {
        Ok(t) => t,
        Err(e) => {
            return Err(e);
        },
    };
    let t = match ast::from_one_indexed(&raw) {
        Some(t) => t,
        None => {
            return Err("parsed term is not in one-based index form".to_string());
        },
    };
    if !ast::is_closed(&t) {
        return Err("the program must be a closed term".to_string());
    }
    if ast::term_size_capped(&t) > ast::SIZE_LIMIT {
        return Err("the program is too large to encode".to_string());
    }
    let ghost e = encode::encode_spec(seq![0u32, 1u32, 2u32, 0u32], 1, Seq::<u32>::empty(), t);
    let mut reduced = encode::to_net(&t);
    let ghost w0 = walker::start_walk(reduced);
    proof {
        assert(reduced.nodes@ == net::linked(e.nodes, 0, e.port));
        assert(reduced.reuse@ =~= Seq::<u32>::empty());
    }
    let stats = walker::reduce(&mut reduced);
    let ghost w = walker::walk_run(w0, u32::MAX, u32::MAX as nat);
    proof {
        assert(reduced.nodes@ == w.nodes);
        assert(Seq::new(net::node_count(reduced) as nat, |i: int| 0u32) =~= Seq::new(
            (w.nodes.len() as int / 4) as nat,
            |i: int| 0u32,
        ));
    }
    let out = match decode::from_net(&reduced) {
        Some(t) => t,
        None => {
            return Err("the reduced net could not be read back".to_string());
        },
    };
    let one = match ast::to_one_indexed(&out) {
        Some(t) => t,
        None => {
            return Err("the reduced term cannot be printed".to_string());
        },
    };
    let shown = surface::show_ext(&one);
    proof {
        assert(stats == pipeline_spec(code@)->Some_0.0);
        assert(shown@ == pipeline_spec(code@)->Some_0.1);
    }
    Ok((stats, shown))
}

} // verus!
