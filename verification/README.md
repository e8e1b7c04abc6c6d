# room_sync

The decisions of a Matrix client's sync stack, written in Rust and verified with Verus: which events
a refreshed live tail commits, when a cached timeline is paginated from the store and when from the
network, what the room list shows and when its evidence is published, how a thread's replies are
counted, and what of a session is kept between runs.

- `src/` is the verified library. Every function states what it returns or changes; the laws that
  span functions are public proof functions at the end of each module.
- `tests/` runs the library on concrete values, with the outside crates linked.
- `app/` holds the asynchronous side: locks, channels, streams, stores and the network. It performs
  what the library decides.

| module | subject |
| --- | --- |
| `live_tail` | refreshing the newest events of a room |
| `room_pagination` | paginating a room's event cache backwards |
| `timeline_pagination` | paginating a timeline, and restoring it from the cache |
| `thread_list` | the threads of a room, with their replies |
| `read_receipts` | the read receipts of an event, in the order in which they came |
| `all_rooms`, `room_subscriptions` | what the server said of rooms, and in which response |
| `room_list`, `room_list_service` | the entries of the room list, and the sync that feeds it |
| `entry_order` | the order of the room list, and what a stream of entries starts with |
| `sliding_sync_cache` | what is stored of a session, and restored |
| `readiness` | the readiness of the encryption sync |
| `signature_upload` | the errors of uploaded signatures |
| `room_cache`, `vector_diff`, `keyed`, `text`, `json` | what these share |
