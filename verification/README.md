# uring-positioned-io

Asynchronous positioned reads with io_uring. What the reads, flushes and pollers
decide is a verified library (Verus); a program around it talks to the kernel.

## Layout

- `src/read.rs`, `src/flush.rs`, `src/poller.rs`: what a read, a flush and a
  poller do, as automata that take an event and return the next action.
- `src/entry.rs`, `src/task.rs`, `src/channel.rs`, `src/error.rs`: what is put into
  the submission queue, and how a completion finds its operation.
- `src/context.rs`, `src/uring.rs`, `src/traits.rs`: setting a ring up, and reading
  through it.
- `src/protocol.rs`, `src/system.rs`: what holds of a read and its poller, and of
  everything on a ring together.
- `src/word.rs`, `src/block.rs`, `src/generate.rs`, `src/bench.rs`: the test files
  of the benchmark, and checking what was read of them.
- `app/`: the futures, the ring and the benchmark programs.

## Reading

```rust
let files = vec![File::open("test.txt").unwrap()];
let context = UringContext::new(files, 256, 1, false).unwrap();
let mut buf = vec![0; 4];
let (_, sz) = context.read(0, 0, &mut buf).await.unwrap();
assert_eq!(&buf[..sz], b"test");
```

The buffer of a read must be valid until the read is complete. A read has to be
polled until its completion code has come; it cannot be aborted.

## Benchmark

Called as `uring_bench`, the program writes files whose blocks of 4096 bytes are
filled with a hash of the file's and the block's number, and reads them:

```bash
uring_bench generate --nf 128 --nb 262144 --dir DIR
RUST_LOG=info uring_bench read --nf 128 --nb 262144 --dir DIR --duration 60 --concurrent 32 --ql 512
RUST_LOG=info uring_bench read_mmap --nf 128 --nb 262144 --dir DIR --duration 60 --threads 8
```
