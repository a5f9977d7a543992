# payments

Commerce payments for carts that span several shops: pricing, promotions and
tax, split settlement, mixed tenders, authorisation and capture, refunds,
disputes, gift cards, shop credit, webhooks and reporting.

`src/` is the library. It is written in Verus: every function states what it
returns or changes, and every statement is proved. Public proof functions named
`law_...` state what holds across functions, such as that the parts of an
allocation add up to the whole, that settlements balance to the cent, that a
failed checkout gives back what it took, or that a checkout retried under its
key gives the same order back.

| Module | Holds |
| --- | --- |
| `money` | currencies, exact amounts, rounding, decimals, largest-remainder allocation |
| `cart` | carts, lines, shipments and their states, the cart service |
| `pricing` | discounts, tax, exchange rates, quotes and their totals |
| `payment` | payments, methods, tenders, splits, refunds, disputes |
| `order` | the order and its lifecycle |
| `ledger` | gift cards and shop credit |
| `gateway` | requests, routing, the Stripe and PayPal adapters, the mock gateway |
| `checkout` | the checkout as a step machine, captures, cancellations, refunds |
| `storage` | in-memory stores with optimistic concurrency and idempotency keys |
| `webhook` | signatures, freshness, deduplicated delivery |
| `fraud`, `reporting` | risk scoring, sales, shop and funder reports |
| `wide` | integers of any size, for the taxes that a price contains |

What rests on trust is declared where it is used: the functions of chrono, uuid,
subtle, sha2, hmac, hex and serde_json that the library calls, each behind one
small function whose contract says what is relied upon. Four things of the standard
library are trusted in the same way: its default hasher, `char::is_alphanumeric`,
`String::from_utf8_lossy` and `String::push`.

`app/` is ordinary Rust around the library: the asynchronous traits and the
loops that perform what the library decides, shared stores behind locks, and the
serialised form of each type. `tests/` runs the library on concrete values.
