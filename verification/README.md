# droidvm

The decisions behind a virtual machine's devices on an Android host, verified with Verus: how guest
memory is prepared, lent and shared; how a guest's buffers are found in the host's memory; how
cameras, codecs and a remote screen are driven.

The library under `src/` performs no I/O. Where a device talks to the outside, the library holds
the state and says what to do next (`next_input`, `next_output`, `next_target`, a `Step`, a `Job`),
and takes what came of it (`on_...`). The code under `app/` makes the calls: threads, sockets,
system calls, and the few computations in floating point.

| module | what it decides |
|---|---|
| `mthp` | how memory is populated, collapsed into folios, and split into parcels |
| `gunyah`, `gunyah_dt` | which memory is lent or shared, memory slots, boot, the device tree |
| `share_probe` | test shares that are asked for in text |
| `shim`, `rm` | the first code of a machine: accepting its memory and handing over |
| `guest_mem`, `guest_buf` | guest memory, and the guest's buffers in it |
| `pool` | a pool of memory that helpers lease from over a socket |
| `kill` | who ends a device, and when |
| `media_backend` | the media devices and the queues of their helper process |
| `codec`, `decoder`, `encoder`, `encode_session` | video codecs: what is offered, and one session |
| `camera`, `camera_control`, `camera_frame`, `camera_stream` | host cameras |
| `vnc_display`, `vnc_h264`, `vnc_channel` | a remote screen and its video stream |
| `underrun` | concealing holes in sound |
| `bytes`, `text`, `errno` | what the others share |

Every type with an invariant has a `wf`. A session's state has a view (`SessionView`, `EncodeView`
and so on), and each method's contract gives the view after it as a function of the view before it.
Functions named `law_...` are proofs about several functions at once.
