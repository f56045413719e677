use vstd::prelude::*;

use crate::commands::{get_assertion, get_info, make_credential};
use crate::constants::{
    CTAP2_CLIENT_PIN, CTAP2_GET_ASSERTION, CTAP2_GET_INFO, CTAP2_MAKE_CREDENTIAL, CTAP2_RESET,
    CTAP2_SELECTION,
};
use crate::core_api::{
    canonical, canonical_credential, zeros, CoreCtx, Credential, MAX_CREDENTIALS, MAX_USER_ID_SIZE,
};
use crate::status::CtapStatus;
use crate::user_presence::USER_PRESENCE_TIMEOUT_MS;

verus! {

/// The handler's own result, given the dispatcher's, which counts the status byte.
pub open spec fn handler_result(r: Result<usize, CtapStatus>) -> Result<usize, CtapStatus> {
    match r {
        Ok(n) => Ok((n - 1) as usize),
        Err(e) => Err(e),
    }
}

/// The effect of dispatching request `req` (command byte, then CBOR) with
/// response buffer `old_resp`: the success status byte goes first and the
/// selected handler writes after it; `prompt` is the host's presence prompt.
#[verifier::opaque]
pub open spec fn dispatch_outcome<G: Fn(u32) -> i32>(
    old_ctx: CoreCtx,
    new_ctx: CoreCtx,
    req: Seq<u8>,
    old_resp: Seq<u8>,
    new_resp: Seq<u8>,
    prompt: G,
    r: Result<usize, CtapStatus>,
) -> bool {
    if req.len() == 0 || old_resp.len() == 0 {
        r == Err::<usize, CtapStatus>(CtapStatus::InvalidLength) && new_ctx == old_ctx && new_resp
            == old_resp
    } else {
        let cmd = req[0];
        let body = req.drop_first();
        &&& new_resp.len() == old_resp.len()
        &&& new_resp[0] == 0
        &&& r is Ok ==> r->Ok_0 >= 1
        &&& if cmd == CTAP2_GET_INFO {
            new_ctx == old_ctx && get_info::get_info_outcome(
                old_resp.drop_first(),
                new_resp.drop_first(),
                handler_result(r),
            )
        } else if cmd == CTAP2_MAKE_CREDENTIAL {
            make_credential::make_credential_outcome(
                old_ctx,
                new_ctx,
                body,
                old_resp.drop_first(),
                new_resp.drop_first(),
                prompt,
                handler_result(r),
            )
        } else if cmd == CTAP2_GET_ASSERTION {
            get_assertion::get_assertion_outcome(
                old_ctx,
                new_ctx,
                body,
                old_resp.drop_first(),
                new_resp.drop_first(),
                prompt,
                handler_result(r),
            )
        } else {
            r == Err::<usize, CtapStatus>(CtapStatus::InvalidCommand) && new_ctx == old_ctx
                && new_resp.drop_first() == old_resp.drop_first()
        }
    }
}

/// Routes a request to its command handler. `ClientPIN`, `Reset` and
/// `Selection` are recognised but not implemented by this engine, and are
/// refused like unknown commands.
pub fn dispatch<G: Fn(u32) -> i32>(
    ctx: &mut CoreCtx,
    req: &[u8],
    resp: &mut [u8],
    presence: &G,
) -> (r: Result<usize, CtapStatus>)
    requires
        call_requires(*presence, (USER_PRESENCE_TIMEOUT_MS,)),
    ensures
        dispatch_outcome(
            *old(ctx),
            *final(ctx),
            req@,
            old(resp)@,
            final(resp)@,
            *presence,
            r,
        ),
{
    proof {
        reveal(dispatch_outcome);
    }
    if req.len() == 0 || resp.len() == 0 {
        return Err(CtapStatus::InvalidLength);
    }
    let cmd = req[0];
    let cbor = vstd::slice::slice_subrange(req, 1, req.len());
    assert(cbor@ =~= req@.drop_first());

    // CTAP2 response: status byte first, then the handler's CBOR payload.
    let (head, tail) = resp.split_at_mut(1);
    head[0] = CtapStatus::Success.as_i32() as u8;

    let out_len = if cmd == CTAP2_GET_INFO {
        get_info::handle(ctx, cbor, tail)
    } else if cmd == CTAP2_MAKE_CREDENTIAL {
        make_credential::handle(ctx, cbor, tail, presence)
    } else if cmd == CTAP2_GET_ASSERTION {
        get_assertion::handle(ctx, cbor, tail, presence)
    } else if cmd == CTAP2_CLIENT_PIN || cmd == CTAP2_RESET || cmd == CTAP2_SELECTION {
        Err(CtapStatus::InvalidCommand)
    } else {
        Err(CtapStatus::InvalidCommand)
    };
    let r = match out_len {
        Ok(n) => Ok(1 + n),
        Err(e) => Err(e),
    };
    assert(handler_result(r) == out_len);
    assert(resp@.drop_first() =~= tail@);
    assert(old(resp)@.drop_first() =~= old(resp)@.subrange(1, old(resp)@.len() as int));
    r
}

// ---------------------------------------------------------------------------
// Invariants of the store across requests
// ---------------------------------------------------------------------------

/// A request keeps every user handle length within bounds.
pub proof fn lemma_dispatch_keeps_wf<G: Fn(u32) -> i32>(
    old_ctx: CoreCtx,
    new_ctx: CoreCtx,
    req: Seq<u8>,
    old_resp: Seq<u8>,
    new_resp: Seq<u8>,
    prompt: G,
    r: Result<usize, CtapStatus>,
)
    requires
        dispatch_outcome(old_ctx, new_ctx, req, old_resp, new_resp, prompt, r),
        old_ctx.wf(),
    ensures
        new_ctx.wf(),
{
    reveal(dispatch_outcome);
    if req.len() > 0 && old_resp.len() > 0 && r is Ok {
        let cmd = req[0];
        let body = req.drop_first();
        if cmd == CTAP2_MAKE_CREDENTIAL {
            let req_model = make_credential::mc_request_at(body, 0)->Ok_0;
            make_credential::lemma_made_credential(
                old_ctx,
                new_ctx,
                body,
                old_resp.drop_first(),
                new_resp.drop_first(),
                prompt,
                handler_result(r),
            );
            let (key, id) = choose|key: Seq<u8>, id: Seq<u8>|
                make_credential::made_credential(
                    old_ctx,
                    new_ctx,
                    old_resp.drop_first(),
                    new_resp.drop_first(),
                    req_model,
                    key,
                    id,
                    handler_result(r)->Ok_0,
                );
            let i = old_ctx.first_free()->Some_0;
            assert(new_ctx.credentials[i].user_id@.len() == 32);
            assert forall|j: int| 0 <= j < MAX_CREDENTIALS implies #[trigger] new_ctx.credentials[j].user_id_len
                <= MAX_USER_ID_SIZE by {
                if j != i {
                    assert(new_ctx.credentials@[j] == old_ctx.credentials@[j]);
                }
            }
        } else if cmd == CTAP2_GET_ASSERTION {
            get_assertion::lemma_asserted(
                old_ctx,
                new_ctx,
                body,
                old_resp.drop_first(),
                new_resp.drop_first(),
                prompt,
                handler_result(r),
            );
            let ga = get_assertion::ga_request_at(body, 0)->Ok_0;
            let i = get_assertion::find_index(
                old_ctx,
                ga.cred_id,
                crate::crypto::sha256_of(ga.rp_id),
            )->Some_0;
            assert forall|j: int| 0 <= j < MAX_CREDENTIALS implies #[trigger] new_ctx.credentials[j].user_id_len
                <= MAX_USER_ID_SIZE by {
                assert(new_ctx.credentials@[j].user_id_len == old_ctx.credentials@[j].user_id_len);
            }
        }
    }
}

/// The dirty flag goes up only when a request succeeds and changes a
/// credential: a registration or an assertion.
pub proof fn lemma_dirty_means_credential_change<G: Fn(u32) -> i32>(
    old_ctx: CoreCtx,
    new_ctx: CoreCtx,
    req: Seq<u8>,
    old_resp: Seq<u8>,
    new_resp: Seq<u8>,
    prompt: G,
    r: Result<usize, CtapStatus>,
)
    requires
        dispatch_outcome(old_ctx, new_ctx, req, old_resp, new_resp, prompt, r),
        !old_ctx.dirty,
        new_ctx.dirty,
    ensures
        r is Ok,
        req[0] == CTAP2_MAKE_CREDENTIAL || req[0] == CTAP2_GET_ASSERTION,
        new_ctx.credentials@ != old_ctx.credentials@,
{
    reveal(dispatch_outcome);
    let cmd = req[0];
    let body = req.drop_first();
    if cmd == CTAP2_MAKE_CREDENTIAL {
        let req_model = make_credential::mc_request_at(body, 0)->Ok_0;
        let (key, id) = choose|key: Seq<u8>, id: Seq<u8>|
            make_credential::made_credential(
                old_ctx,
                new_ctx,
                old_resp.drop_first(),
                new_resp.drop_first(),
                req_model,
                key,
                id,
                handler_result(r)->Ok_0,
            );
        let i = old_ctx.first_free()->Some_0;
        assert(!old_ctx.credentials@[i].in_use);
        assert(new_ctx.credentials@[i].in_use);
    } else if cmd == CTAP2_GET_ASSERTION {
        let ga = get_assertion::ga_request_at(body, 0)->Ok_0;
        let i = get_assertion::find_index(old_ctx, ga.cred_id, crate::crypto::sha256_of(ga.rp_id))->Some_0;
        assert(new_ctx.credentials@[i].sign_count != old_ctx.credentials@[i].sign_count);
    }
}

/// Two credentials of one user for one relying party.
pub open spec fn same_user(a: Credential, b: Credential) -> bool {
    &&& a.rp_id_hash@ == b.rp_id_hash@
    &&& a.user_id@.subrange(0, a.user_id_len as int) == b.user_id@.subrange(0, b.user_id_len as int)
}

/// No two slots in use hold credentials of the same user for the same relying party.
pub open spec fn unique_users(ctx: CoreCtx) -> bool {
    forall|i: int, j: int|
        0 <= i < j < MAX_CREDENTIALS && ctx.credentials[i].in_use && ctx.credentials[j].in_use
            ==> !same_user(#[trigger] ctx.credentials[i], #[trigger] ctx.credentials[j])
}

/// Some slot in use holds a credential of this user for this relying party.
pub open spec fn has_user(ctx: CoreCtx, rp_id_hash: Seq<u8>, user_id: Seq<u8>) -> bool {
    exists|i: int|
        0 <= i < MAX_CREDENTIALS && (#[trigger] ctx.credentials[i]).in_use
            && ctx.credentials[i].rp_id_hash@ == rp_id_hash && ctx.credentials[i].user_id@.subrange(
            0,
            ctx.credentials[i].user_id_len as int,
        ) == user_id
}

/// A request keeps at most one credential per user and relying party, as
/// long as it does not register a user who already holds one there.
pub proof fn lemma_dispatch_keeps_users_unique<G: Fn(u32) -> i32>(
    old_ctx: CoreCtx,
    new_ctx: CoreCtx,
    req: Seq<u8>,
    old_resp: Seq<u8>,
    new_resp: Seq<u8>,
    prompt: G,
    r: Result<usize, CtapStatus>,
)
    requires
        dispatch_outcome(old_ctx, new_ctx, req, old_resp, new_resp, prompt, r),
        unique_users(old_ctx),
        req.len() > 0 && req[0] == CTAP2_MAKE_CREDENTIAL && make_credential::mc_request_at(
            req.drop_first(),
            0,
        ) is Ok ==> {
            let m = make_credential::mc_request_at(req.drop_first(), 0)->Ok_0;
            !has_user(old_ctx, crate::crypto::sha256_of(m.rp_id), m.user_id)
        },
    ensures
        unique_users(new_ctx),
{
    reveal(dispatch_outcome);
    if req.len() > 0 && old_resp.len() > 0 && r is Ok {
        let cmd = req[0];
        let body = req.drop_first();
        if cmd == CTAP2_MAKE_CREDENTIAL {
            let m = make_credential::mc_request_at(body, 0)->Ok_0;
            let h = crate::crypto::sha256_of(m.rp_id);
            make_credential::lemma_made_credential(
                old_ctx,
                new_ctx,
                body,
                old_resp.drop_first(),
                new_resp.drop_first(),
                prompt,
                handler_result(r),
            );
            let (key, id) = choose|key: Seq<u8>, id: Seq<u8>|
                make_credential::made_credential(
                    old_ctx,
                    new_ctx,
                    old_resp.drop_first(),
                    new_resp.drop_first(),
                    m,
                    key,
                    id,
                    handler_result(r)->Ok_0,
                );
            let k = old_ctx.first_free()->Some_0;
            let c = new_ctx.credentials[k];
            assert(c.user_id@.len() == 32);
            assert(c.user_id@.subrange(0, c.user_id_len as int) =~= m.user_id);
            assert forall|i: int, j: int|
                0 <= i < j < MAX_CREDENTIALS && new_ctx.credentials[i].in_use
                    && new_ctx.credentials[j].in_use implies !same_user(
                #[trigger] new_ctx.credentials[i],
                #[trigger] new_ctx.credentials[j],
            ) by {
                if i == k {
                    assert(new_ctx.credentials@[j] == old_ctx.credentials@[j]);
                    if same_user(new_ctx.credentials[i], new_ctx.credentials[j]) {
                        assert(old_ctx.credentials[j].in_use);
                        assert(has_user(old_ctx, h, m.user_id));
                    }
                } else if j == k {
                    assert(new_ctx.credentials@[i] == old_ctx.credentials@[i]);
                    if same_user(new_ctx.credentials[i], new_ctx.credentials[j]) {
                        assert(old_ctx.credentials[i].in_use);
                        assert(has_user(old_ctx, h, m.user_id));
                    }
                } else {
                    assert(new_ctx.credentials@[i] == old_ctx.credentials@[i]);
                    assert(new_ctx.credentials@[j] == old_ctx.credentials@[j]);
                }
            }
        } else if cmd == CTAP2_GET_ASSERTION {
            get_assertion::lemma_asserted(
                old_ctx,
                new_ctx,
                body,
                old_resp.drop_first(),
                new_resp.drop_first(),
                prompt,
                handler_result(r),
            );
            let ga = get_assertion::ga_request_at(body, 0)->Ok_0;
            let k = get_assertion::find_index(
                old_ctx,
                ga.cred_id,
                crate::crypto::sha256_of(ga.rp_id),
            )->Some_0;
            assert forall|i: int, j: int|
                0 <= i < j < MAX_CREDENTIALS && new_ctx.credentials[i].in_use
                    && new_ctx.credentials[j].in_use implies !same_user(
                #[trigger] new_ctx.credentials[i],
                #[trigger] new_ctx.credentials[j],
            ) by {
                assert(old_ctx.credentials[i].in_use && old_ctx.credentials[j].in_use);
                assert(same_user(new_ctx.credentials@[i], new_ctx.credentials@[j]) == same_user(
                    old_ctx.credentials@[i],
                    old_ctx.credentials@[j],
                ));
            }
        }
    }
}

/// A request keeps every slot canonical: unused slots all zero, and no
/// bytes beyond a user handle's length.
pub proof fn lemma_dispatch_keeps_canonical<G: Fn(u32) -> i32>(
    old_ctx: CoreCtx,
    new_ctx: CoreCtx,
    req: Seq<u8>,
    old_resp: Seq<u8>,
    new_resp: Seq<u8>,
    prompt: G,
    r: Result<usize, CtapStatus>,
)
    requires
        dispatch_outcome(old_ctx, new_ctx, req, old_resp, new_resp, prompt, r),
        canonical(old_ctx),
    ensures
        canonical(new_ctx),
{
    reveal(dispatch_outcome);
    if req.len() > 0 && old_resp.len() > 0 && r is Ok {
        let cmd = req[0];
        let body = req.drop_first();
        if cmd == CTAP2_MAKE_CREDENTIAL {
            let req_model = make_credential::mc_request_at(body, 0)->Ok_0;
            make_credential::lemma_made_credential(
                old_ctx,
                new_ctx,
                body,
                old_resp.drop_first(),
                new_resp.drop_first(),
                prompt,
                handler_result(r),
            );
            let (key, id) = choose|key: Seq<u8>, id: Seq<u8>|
                make_credential::made_credential(
                    old_ctx,
                    new_ctx,
                    old_resp.drop_first(),
                    new_resp.drop_first(),
                    req_model,
                    key,
                    id,
                    handler_result(r)->Ok_0,
                );
            let i = old_ctx.first_free()->Some_0;
            let c = new_ctx.credentials[i];
            assert(c.user_id@.len() == 32);
            assert(c.user_id@.subrange(c.user_id_len as int, 32) =~= zeros(
                (32 - c.user_id_len) as nat,
            ));
            assert forall|j: int| 0 <= j < MAX_CREDENTIALS implies canonical_credential(
                #[trigger] new_ctx.credentials[j],
            ) by {
                if j != i {
                    assert(new_ctx.credentials@[j] == old_ctx.credentials@[j]);
                    assert(canonical_credential(old_ctx.credentials[j]));
                }
            }
        } else if cmd == CTAP2_GET_ASSERTION {
            get_assertion::lemma_asserted(
                old_ctx,
                new_ctx,
                body,
                old_resp.drop_first(),
                new_resp.drop_first(),
                prompt,
                handler_result(r),
            );
            let ga = get_assertion::ga_request_at(body, 0)->Ok_0;
            let k = get_assertion::find_index(
                old_ctx,
                ga.cred_id,
                crate::crypto::sha256_of(ga.rp_id),
            )->Some_0;
            assert forall|j: int| 0 <= j < MAX_CREDENTIALS implies canonical_credential(
                #[trigger] new_ctx.credentials[j],
            ) by {
                assert(canonical_credential(old_ctx.credentials[j]));
                if j == k {
                    assert(old_ctx.credentials[j].in_use);
                }
            }
        }
    }
}

} // verus!
